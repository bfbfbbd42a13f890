//! The editor extension: its settings, and the programs that it installs and starts.

pub mod bazel;
pub mod config;
pub mod downloadable;
pub mod gradle_ls;
pub mod jdtls;
pub mod native;
pub mod platform;
pub mod util;
