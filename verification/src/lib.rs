//! Snapshots of the diagnostic state of a database cluster, and the differences between them.
//!
//! A collection round visits every configured host and port, a snapshot store numbers the
//! rounds, and the diff engine pairs the records of two rounds by identity and reports what
//! was added, removed or changed.

pub mod collector;
pub mod diff;
pub mod entity;
pub mod gflags;
pub mod masters;
pub mod settings;
pub mod snapshot;
pub mod text;

pub use crate::snapshot::{perform_snapshot, read_begin_end_snapshot_from_user, Snapshot};
