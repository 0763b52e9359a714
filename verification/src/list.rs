//! Backups as lists show them.

use vstd::prelude::*;

use crate::time::Timestamp;

verus! {

/// Where a backup is.
#[derive(Debug, Clone, Copy, PartialEq, Eq, Structural)]
pub enum Location {
    Local,
    Remote,
}

/// What is known of a backup.
#[derive(Debug, Clone)]
pub struct BackupSummary {
    pub name: String,
    /// When it was made; unknown for a broken backup.
    pub timestamp: Option<Timestamp>,
    /// Uncompressed size in bytes.
    pub size: u64,
    pub compressed_size: u64,
    pub table_count: u64,
    pub metadata_size: u64,
    pub rbac_size: u64,
    pub config_size: u64,
    pub object_disk_size: u64,
    /// The base backup that it needs; empty where it needs none.
    pub required: String,
    pub is_broken: bool,
    pub broken_reason: Option<String>,
}

} // verus!
