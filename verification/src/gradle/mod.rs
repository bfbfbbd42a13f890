//! The bridge between the editor and the Gradle language server, which feeds the latter with the
//! build model.

pub mod model;
pub mod rpc;
pub mod server;
