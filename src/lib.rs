//! Containers of file mappings and their versions: configuration resolution,
//! the path layout of stored versions, and the plans of filesystem actions
//! that recording, applying and backing up carry out.
pub mod path;
pub mod error;
pub mod plan;
pub mod config;
pub mod snapshot;
pub mod qbox;
pub mod init;
pub mod laws;
