//! Turning one platform metadata probe into a portable [`OsRawMetadata`].
use crate::events::{FsEntryKind, OsRawMetadata};
use std::time::SystemTime;
use vstd::prelude::*;

verus! {

/// What one metadata probe of a path reported, as plain values.
#[derive(Debug, Clone)]
pub struct StatFacts {
    pub is_file: bool,
    pub is_dir: bool,
    pub is_symlink: bool,
    /// The modification time, where the platform could report one.
    pub modified: Option<SystemTime>,
    /// The length that the platform reported, whatever the kind of node.
    pub len: u64,
}

/// The kind of a node, by a fixed priority: file, then directory, then symlink.
pub open spec fn kind_of(is_file: bool, is_dir: bool, is_symlink: bool) -> FsEntryKind {
    if is_file {
        FsEntryKind::File
    } else if is_dir {
        FsEntryKind::Directory
    } else if is_symlink {
        FsEntryKind::Symlink
    } else {
        FsEntryKind::Other
    }
}

/// The portable metadata that a probe's facts describe.
pub open spec fn raw_of(facts: StatFacts) -> OsRawMetadata {
    let kind = kind_of(facts.is_file, facts.is_dir, facts.is_symlink);
    OsRawMetadata {
        kind,
        modified: facts.modified,
        logical_len_bytes: if kind == FsEntryKind::File {
            Some(facts.len)
        } else {
            None
        },
    }
}

/// Classifies a node from its file-type flags.
pub fn kind_from_meta(is_file: bool, is_dir: bool, is_symlink: bool) -> (k: FsEntryKind)
    ensures
        k == kind_of(is_file, is_dir, is_symlink),
{
    if is_file {
        FsEntryKind::File
    } else if is_dir {
        FsEntryKind::Directory
    } else if is_symlink {
        FsEntryKind::Symlink
    } else {
        FsEntryKind::Other
    }
}

/// Normalizes a probe's facts: the kind by priority, the modification time as
/// reported, and a length for regular files only.
pub fn raw_metadata(facts: StatFacts) -> (raw: OsRawMetadata)
    ensures
        raw == raw_of(facts),
        raw.wf(),
{
    let kind = kind_from_meta(facts.is_file, facts.is_dir, facts.is_symlink);
    let logical_len_bytes = if kind == FsEntryKind::File {
        Some(facts.len)
    } else {
        None
    };
    OsRawMetadata { kind, modified: facts.modified, logical_len_bytes }
}

} // verus!
