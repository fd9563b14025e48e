//! Snapshot engine of a build-cache tool: entries, their diff, the archive
//! format and the rules around pulling and pushing a snapshot.

pub mod bytes;
pub mod commands;
pub mod config;
pub mod errors;
pub mod hashing;
pub mod paths;
pub mod services;
pub mod snapshot;
pub mod stats;
pub mod storage;
pub mod text;

pub use crate::commands::{Pull, Push};
pub use crate::config::Config;
pub use crate::errors::{Error, ErrorKind};
pub use crate::services::{Service, ServiceFactory};
pub use crate::stats::Stats;
pub use crate::storage::Storage;
