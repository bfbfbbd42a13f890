//! The proxy that stands between the editor and the Java language server.

pub mod cache;
pub mod completions;
pub mod decompile;
pub mod disk;
pub mod output;
pub mod pending;
pub mod requests;
pub mod routing;
pub mod sources;
pub mod startup;
