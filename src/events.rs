use std::path::PathBuf;
use std::time::SystemTime;
use vstd::prelude::*;

verus! {

/// Paths are carried through the walk unchanged; nothing looks inside them.
#[verifier::external_type_specification]
#[verifier::external_body]
pub struct ExPathBuf(std::path::PathBuf);

/// Modification times are carried through the walk unchanged.
#[verifier::external_type_specification]
#[verifier::external_body]
pub struct ExSystemTime(std::time::SystemTime);

/// Relies on `PathBuf::clone`: the copy is the same path.
pub assume_specification[ <std::path::PathBuf as Clone>::clone ](p: &std::path::PathBuf) -> (r:
    std::path::PathBuf)
    ensures
        r == *p,
;

/// What kind of filesystem node an entry is.
#[derive(Debug, Clone, Copy, PartialEq, Eq, Structural)]
pub enum FsEntryKind {
    File,
    Directory,
    Symlink,
    Other,
}

/// Best-effort metadata obtained directly from the operating system.
#[derive(Debug, Clone)]
pub struct OsRawMetadata {
    pub kind: FsEntryKind,
    pub modified: Option<SystemTime>,
    /// Logical file length in bytes: present for regular files only.
    pub logical_len_bytes: Option<u64>,
}

impl OsRawMetadata {
    /// A length is reported exactly when the entry is a regular file.
    pub open spec fn wf(&self) -> bool {
        self.logical_len_bytes is Some <==> self.kind == FsEntryKind::File
    }
}

/// Metadata that a consumer of the event stream may compute by aggregation.
#[derive(Debug, Clone)]
pub struct DerivedMetadata {
    /// Total logical size of the subtree rooted at an entry, once computed.
    pub subtree_logical_bytes: Option<u64>,
}

impl Default for DerivedMetadata {
    fn default() -> (r: Self)
        ensures
            r.subtree_logical_bytes is None,
    {
        DerivedMetadata { subtree_logical_bytes: None }
    }
}

/// How an operation on a path failed.
#[derive(Debug, Clone, Copy, PartialEq, Eq, Structural)]
pub enum TraverseErrorKind {
    /// The metadata probe of the path failed; the path yields no entry.
    StatFailed,
    /// The path is a directory with an entry, but listing its children failed.
    ExpandFailed,
    /// The directory listing worked, but one child slot in it could not be read.
    ReadDirEntryFailed,
}

/// One unit of output of a walk.
#[derive(Debug, Clone)]
pub enum TraverseEvent {
    Entry { path: PathBuf, raw: OsRawMetadata },
    Error { path: PathBuf, kind: TraverseErrorKind, message: String },
}

impl TraverseEvent {
    /// The path that the event is about.
    pub open spec fn path(&self) -> PathBuf {
        match self {
            TraverseEvent::Entry { path, .. } => *path,
            TraverseEvent::Error { path, .. } => *path,
        }
    }

    /// An entry event for `p`.
    pub open spec fn is_entry_for(&self, p: PathBuf) -> bool {
        self matches TraverseEvent::Entry { path, .. } && path == p
    }

    /// An entry event for `p` that reports a directory.
    pub open spec fn is_directory_entry_for(&self, p: PathBuf) -> bool {
        self matches TraverseEvent::Entry { path, raw } && path == p && raw.kind
            == FsEntryKind::Directory
    }

    /// An error event of kind `k` for `p`.
    pub open spec fn is_error_for(&self, p: PathBuf, k: TraverseErrorKind) -> bool {
        self matches TraverseEvent::Error { path, kind, .. } && path == p && kind == k
    }

    /// The outcome of a metadata probe: an entry, or a failed probe.
    pub open spec fn is_probe_outcome(&self) -> bool {
        ||| self is Entry
        ||| self matches TraverseEvent::Error { kind, .. } && kind == TraverseErrorKind::StatFailed
    }

    /// An error that arises while expanding a directory.
    pub open spec fn is_expansion_error(&self) -> bool {
        self matches TraverseEvent::Error { kind, .. } && kind != TraverseErrorKind::StatFailed
    }
}

} // verus!
