use dsa_core::events::{DerivedMetadata, FsEntryKind, OsRawMetadata, TraverseErrorKind, TraverseEvent};
use dsa_core::metadata::{kind_from_meta, raw_metadata, StatFacts};
use dsa_core::traverse::{TraverseConfig, Traversal, WalkStep};

use std::path::{Path, PathBuf};

/// A node of an in-memory tree that stands in for the filesystem.
enum Node {
    File(u64),
    Dir(Vec<&'static str>),
    /// A directory that can be probed but not listed.
    Locked,
    /// A symlink to a directory with these children.
    LinkToDir(Vec<&'static str>),
    Fifo,
}

/// A child name that the listing reports as an unreadable slot.
const BAD_SLOT: &str = "?";

fn find<'a>(tree: &'a [(&str, Node)], path: &Path) -> Option<&'a Node> {
    tree.iter().find(|(p, _)| Path::new(p) == path).map(|(_, n)| n)
}

fn facts(is_file: bool, is_dir: bool, is_symlink: bool, len: u64) -> StatFacts {
    StatFacts { is_file, is_dir, is_symlink, modified: None, len }
}

fn probe(tree: &[(&str, Node)], path: &Path, follow: bool) -> Result<StatFacts, String> {
    match find(tree, path) {
        None => Err("No such file or directory (os error 2)".to_string()),
        Some(Node::File(n)) => Ok(facts(true, false, false, *n)),
        Some(Node::Dir(_)) | Some(Node::Locked) => Ok(facts(false, true, false, 4096)),
        Some(Node::LinkToDir(_)) if follow => Ok(facts(false, true, false, 4096)),
        Some(Node::LinkToDir(_)) => Ok(facts(false, false, true, 7)),
        Some(Node::Fifo) => Ok(facts(false, false, false, 0)),
    }
}

fn list(tree: &[(&str, Node)], path: &Path) -> Result<Vec<Result<PathBuf, String>>, String> {
    let names = match find(tree, path) {
        Some(Node::Dir(names)) | Some(Node::LinkToDir(names)) => names,
        _ => return Err("Permission denied (os error 13)".to_string()),
    };
    Ok(names
        .iter()
        .map(|n| {
            if *n == BAD_SLOT {
                Err("entry could not be read".to_string())
            } else {
                Ok(path.join(n))
            }
        })
        .collect())
}

fn walk(root: &str, cfg: &TraverseConfig, tree: &[(&str, Node)]) -> Vec<TraverseEvent> {
    let mut t = Traversal::new(PathBuf::from(root), cfg);
    let mut events = Vec::new();
    loop {
        match t.next_step() {
            WalkStep::Deliver(ev) => events.push(ev),
            WalkStep::Probe { path, follow_symlinks } => {
                assert_eq!(follow_symlinks, cfg.follow_symlinks);
                t.record_probe(probe(tree, &path, follow_symlinks));
            }
            WalkStep::List { path } => t.record_listing(list(tree, &path)),
            WalkStep::Finished => return events,
        }
    }
}

fn entry_kind(ev: &TraverseEvent) -> Option<(PathBuf, FsEntryKind)> {
    match ev {
        TraverseEvent::Entry { path, raw } => Some((path.clone(), raw.kind)),
        _ => None,
    }
}

fn error_kind(ev: &TraverseEvent) -> Option<(PathBuf, TraverseErrorKind)> {
    match ev {
        TraverseEvent::Error { path, kind, .. } => Some((path.clone(), *kind)),
        _ => None,
    }
}

fn paths(events: &[TraverseEvent]) -> Vec<PathBuf> {
    events
        .iter()
        .map(|e| match e {
            TraverseEvent::Entry { path, .. } => path.clone(),
            TraverseEvent::Error { path, .. } => path.clone(),
        })
        .collect()
}

#[test]
fn emits_entry_even_if_directory_cannot_be_read() {
    let base: PathBuf = ["target", "tmp_test_no_read"].iter().collect();
    let dir = base.join("no_read");
    let tree = [("target/tmp_test_no_read", Node::Dir(vec!["no_read"])), ("target/tmp_test_no_read/no_read", Node::Locked)];

    let cfg = TraverseConfig::default();
    let events = walk(base.to_str().unwrap(), &cfg, &tree);

    let mut saw_entry = false;
    let mut saw_error = false;
    for ev in events {
        match ev {
            TraverseEvent::Entry { path, .. } => {
                if path == dir {
                    saw_entry = true;
                }
            }
            TraverseEvent::Error { path, kind, .. } => {
                if path == dir && kind == TraverseErrorKind::ExpandFailed {
                    saw_error = true;
                }
            }
        }
    }
    assert!(saw_entry, "Expected Entry event for unreadable directory");
    assert!(saw_error, "Expected Error event when expanding unreadable directory");
}

#[test]
fn single_file_root_yields_one_entry_with_length() {
    let tree = [("f.txt", Node::File(42))];
    let events = walk("f.txt", &TraverseConfig::default(), &tree);
    assert_eq!(events.len(), 1);
    match &events[0] {
        TraverseEvent::Entry { path, raw } => {
            assert_eq!(path, &PathBuf::from("f.txt"));
            assert_eq!(raw.kind, FsEntryKind::File);
            assert_eq!(raw.logical_len_bytes, Some(42));
        }
        other => panic!("unexpected event {other:?}"),
    }
}

#[test]
fn nested_directories_are_walked_depth_first() {
    let tree = [("root", Node::Dir(vec!["a"])), ("root/a", Node::Dir(vec!["x.txt"])), ("root/a/x.txt", Node::File(3))];
    let events = walk("root", &TraverseConfig::default(), &tree);
    let got: Vec<_> = events.iter().map(entry_kind).collect();
    assert_eq!(
        got,
        vec![
            Some((PathBuf::from("root"), FsEntryKind::Directory)),
            Some((PathBuf::from("root/a"), FsEntryKind::Directory)),
            Some((PathBuf::from("root/a/x.txt"), FsEntryKind::File)),
        ]
    );
}

#[test]
fn locked_root_yields_entry_then_expand_failed() {
    let tree = [("locked", Node::Locked)];
    let events = walk("locked", &TraverseConfig::default(), &tree);
    assert_eq!(events.len(), 2);
    assert_eq!(entry_kind(&events[0]), Some((PathBuf::from("locked"), FsEntryKind::Directory)));
    assert_eq!(error_kind(&events[1]), Some((PathBuf::from("locked"), TraverseErrorKind::ExpandFailed)));
    match &events[1] {
        TraverseEvent::Error { message, .. } => assert_eq!(message, "Permission denied (os error 13)"),
        _ => unreachable!(),
    }
}

#[test]
fn missing_root_yields_stat_failed_only() {
    let events = walk("nowhere", &TraverseConfig::default(), &[]);
    assert_eq!(events.len(), 1);
    assert_eq!(error_kind(&events[0]), Some((PathBuf::from("nowhere"), TraverseErrorKind::StatFailed)));
    match &events[0] {
        TraverseEvent::Error { message, .. } => assert_eq!(message, "No such file or directory (os error 2)"),
        _ => unreachable!(),
    }
}

#[test]
fn siblings_come_off_the_stack_last_listed_first() {
    let tree = [("r", Node::Dir(vec!["a", "b"])), ("r/a", Node::Dir(vec!["c"])), ("r/a/c", Node::File(1)), ("r/b", Node::File(2))];
    let events = walk("r", &TraverseConfig::default(), &tree);
    assert_eq!(
        paths(&events),
        vec![PathBuf::from("r"), PathBuf::from("r/b"), PathBuf::from("r/a"), PathBuf::from("r/a/c")]
    );
}

#[test]
fn unreadable_directory_does_not_stop_its_siblings() {
    let tree = [
        ("r", Node::Dir(vec!["locked", "ok.txt", "sub"])),
        ("r/locked", Node::Locked),
        ("r/ok.txt", Node::File(5)),
        ("r/sub", Node::Dir(vec!["y"])),
        ("r/sub/y", Node::File(6)),
    ];
    let events = walk("r", &TraverseConfig::default(), &tree);
    let locked = PathBuf::from("r/locked");
    let entries = events.iter().filter(|e| matches!(entry_kind(e), Some((p, _)) if p == locked)).count();
    let failures = events
        .iter()
        .filter(|e| error_kind(e) == Some((locked.clone(), TraverseErrorKind::ExpandFailed)))
        .count();
    assert_eq!(entries, 1);
    assert_eq!(failures, 1);
    assert!(paths(&events).iter().all(|p| !p.starts_with(&locked) || p == &locked));
    assert_eq!(
        paths(&events),
        vec![
            PathBuf::from("r"),
            PathBuf::from("r/sub"),
            PathBuf::from("r/sub/y"),
            PathBuf::from("r/ok.txt"),
            PathBuf::from("r/locked"),
            PathBuf::from("r/locked"),
        ]
    );
}

#[test]
fn unreadable_child_slot_reports_parent_and_continues() {
    let tree = [("d", Node::Dir(vec!["a", BAD_SLOT, "b"])), ("d/a", Node::File(1)), ("d/b", Node::File(2))];
    let events = walk("d", &TraverseConfig::default(), &tree);
    assert_eq!(entry_kind(&events[0]), Some((PathBuf::from("d"), FsEntryKind::Directory)));
    assert_eq!(error_kind(&events[1]), Some((PathBuf::from("d"), TraverseErrorKind::ReadDirEntryFailed)));
    assert_eq!(paths(&events), vec![PathBuf::from("d"), PathBuf::from("d"), PathBuf::from("d/b"), PathBuf::from("d/a")]);
}

#[test]
fn expansion_errors_follow_an_entry_for_their_directory() {
    let tree = [
        ("r", Node::Dir(vec!["x", BAD_SLOT, "gone"])),
        ("r/x", Node::Locked),
    ];
    let events = walk("r", &TraverseConfig::default(), &tree);
    for (i, ev) in events.iter().enumerate() {
        if let Some((p, k)) = error_kind(ev) {
            if k != TraverseErrorKind::StatFailed {
                assert!(events[..i].iter().any(|e| entry_kind(e) == Some((p.clone(), FsEntryKind::Directory))));
            }
        }
    }
    let stat_failed: Vec<_> = events
        .iter()
        .filter_map(error_kind)
        .filter(|(_, k)| *k == TraverseErrorKind::StatFailed)
        .map(|(p, _)| p)
        .collect();
    assert_eq!(stat_failed, vec![PathBuf::from("r/gone")]);
    assert!(events.iter().all(|e| entry_kind(e).map(|(p, _)| p) != Some(PathBuf::from("r/gone"))));
}

#[test]
fn symlink_is_not_expanded_by_default() {
    let tree = [("r", Node::Dir(vec!["link"])), ("r/link", Node::LinkToDir(vec!["inner"])), ("r/link/inner", Node::File(9))];
    let events = walk("r", &TraverseConfig::default(), &tree);
    assert_eq!(paths(&events), vec![PathBuf::from("r"), PathBuf::from("r/link")]);
    assert_eq!(entry_kind(&events[1]), Some((PathBuf::from("r/link"), FsEntryKind::Symlink)));
    match &events[1] {
        TraverseEvent::Entry { raw, .. } => assert_eq!(raw.logical_len_bytes, None),
        _ => unreachable!(),
    }
}

#[test]
fn symlink_to_directory_is_expanded_when_followed() {
    let tree = [("r", Node::Dir(vec!["link"])), ("r/link", Node::LinkToDir(vec!["inner"])), ("r/link/inner", Node::File(9))];
    let cfg = TraverseConfig { follow_symlinks: true };
    let events = walk("r", &cfg, &tree);
    assert_eq!(paths(&events), vec![PathBuf::from("r"), PathBuf::from("r/link"), PathBuf::from("r/link/inner")]);
    assert_eq!(entry_kind(&events[1]), Some((PathBuf::from("r/link"), FsEntryKind::Directory)));
}

#[test]
fn other_nodes_are_reported_and_not_listed() {
    let tree = [("p", Node::Fifo)];
    let mut t = Traversal::new(PathBuf::from("p"), &TraverseConfig::default());
    match t.next_step() {
        WalkStep::Probe { path, follow_symlinks } => {
            assert_eq!(path, PathBuf::from("p"));
            assert!(!follow_symlinks);
            t.record_probe(probe(&tree, &path, follow_symlinks));
        }
        other => panic!("unexpected step {other:?}"),
    }
    match t.next_step() {
        WalkStep::Deliver(ev) => assert_eq!(entry_kind(&ev), Some((PathBuf::from("p"), FsEntryKind::Other))),
        other => panic!("unexpected step {other:?}"),
    }
    assert!(matches!(t.next_step(), WalkStep::Finished));
    assert!(matches!(t.next_step(), WalkStep::Finished));
}

#[test]
fn outstanding_probe_is_asked_for_again() {
    let mut t = Traversal::new(PathBuf::from("q"), &TraverseConfig::default());
    assert!(matches!(t.next_step(), WalkStep::Probe { .. }));
    match t.next_step() {
        WalkStep::Probe { path, .. } => assert_eq!(path, PathBuf::from("q")),
        other => panic!("unexpected step {other:?}"),
    }
    // a listing that was not asked for changes nothing
    t.record_listing(Ok(vec![Ok(PathBuf::from("q/z"))]));
    t.record_probe(Ok(facts(true, false, false, 10)));
    // a second probe outcome is ignored
    t.record_probe(Err("late".to_string()));
    match t.next_step() {
        WalkStep::Deliver(ev) => assert_eq!(entry_kind(&ev), Some((PathBuf::from("q"), FsEntryKind::File))),
        other => panic!("unexpected step {other:?}"),
    }
    assert!(matches!(t.next_step(), WalkStep::Finished));
}

#[test]
fn kind_follows_fixed_priority() {
    assert_eq!(kind_from_meta(true, true, true), FsEntryKind::File);
    assert_eq!(kind_from_meta(false, true, true), FsEntryKind::Directory);
    assert_eq!(kind_from_meta(false, false, true), FsEntryKind::Symlink);
    assert_eq!(kind_from_meta(false, false, false), FsEntryKind::Other);
}

#[test]
fn length_is_reported_for_files_only() {
    let file: OsRawMetadata = raw_metadata(facts(true, false, false, 1234));
    assert_eq!(file.kind, FsEntryKind::File);
    assert_eq!(file.logical_len_bytes, Some(1234));
    let dir = raw_metadata(facts(false, true, false, 4096));
    assert_eq!(dir.kind, FsEntryKind::Directory);
    assert_eq!(dir.logical_len_bytes, None);
    let link = raw_metadata(facts(false, false, true, 11));
    assert_eq!(link.logical_len_bytes, None);
    let other = raw_metadata(facts(false, false, false, 0));
    assert_eq!(other.kind, FsEntryKind::Other);
    assert_eq!(other.logical_len_bytes, None);
}

#[test]
fn modification_time_is_carried_through() {
    let when = std::time::SystemTime::UNIX_EPOCH + std::time::Duration::from_secs(1_000_000);
    let raw = raw_metadata(StatFacts { is_file: true, is_dir: false, is_symlink: false, modified: Some(when), len: 0 });
    assert_eq!(raw.modified, Some(when));
    assert_eq!(raw.logical_len_bytes, Some(0));
}

#[test]
fn defaults_do_not_follow_symlinks_or_hold_a_size() {
    assert!(!TraverseConfig::default().follow_symlinks);
    assert_eq!(DerivedMetadata::default().subtree_logical_bytes, None);
}
