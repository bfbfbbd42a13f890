//! Logic of the Java editor extension, its language-server proxy and its Gradle bridge.

pub mod codec;
pub mod environment;
pub mod extension;
pub mod gradle;
pub mod json;
pub mod lsp;
pub mod lsp_proxy;
pub mod path;
pub mod table;
pub mod text;
pub mod uri;
pub mod windows_path;

