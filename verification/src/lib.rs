//! Server resource triage: diagnoses CPU, disk and network pressure against
//! configured thresholds and can take corrective action (terminate processes,
//! delete files).
//!
//! The core of the library is the filesystem scanner: a recursive directory
//! traversal that discovers files exceeding a size threshold and streams them
//! through a bounded channel to a consumer — either a read-only reporter or a
//! filtered remover.

pub mod channel;
pub mod cli;
pub mod config;
pub mod consumer;
pub mod fs_tree;
pub mod scan;
pub mod units;
