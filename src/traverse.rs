//! The depth-first walk as a state machine.
//!
//! A [`Traversal`] holds a stack of paths still to visit and a buffer of events
//! ready for delivery. [`Traversal::next_step`] either delivers the oldest
//! buffered event or asks its caller for the next piece of outside work: a
//! metadata probe of one path, or the listing of one directory. The caller hands
//! the outcome back through [`Traversal::record_probe`] or
//! [`Traversal::record_listing`]. Siblings are visited in the reverse of the
//! order in which the listing produced them, as a stack does; no other order is
//! promised.
use crate::events::{FsEntryKind, TraverseErrorKind, TraverseEvent};
use crate::metadata::{raw_metadata, raw_of, StatFacts};
use std::collections::VecDeque;
use std::path::PathBuf;
use vstd::prelude::*;

verus! {

/// Walk policy.
#[derive(Debug, Clone)]
pub struct TraverseConfig {
    /// Probe through symlinks, so that a link to a directory is expanded.
    pub follow_symlinks: bool,
}

impl Default for TraverseConfig {
    fn default() -> (r: Self)
        ensures
            !r.follow_symlinks,
    {
        TraverseConfig { follow_symlinks: false }
    }
}

/// The outside work that a walk has asked for and not yet been told the outcome of.
#[derive(Debug)]
pub enum Awaiting {
    Nothing,
    Probe(PathBuf),
    Listing(PathBuf),
}

/// What a walk asks of its caller next.
#[derive(Debug)]
pub enum WalkStep {
    /// The next event of the walk.
    Deliver(TraverseEvent),
    /// Probe the metadata of `path`, through symlinks when `follow_symlinks` holds;
    /// then call `record_probe`.
    Probe { path: PathBuf, follow_symlinks: bool },
    /// List the children of the directory `path`; then call `record_listing`.
    List { path: PathBuf },
    /// The walk is over.
    Finished,
}

/// The abstract state of a walk.
pub struct WalkState {
    /// Paths still to visit; the last one is visited next.
    pub stack: Seq<PathBuf>,
    /// Events produced and not yet delivered, oldest first.
    pub buffer: Seq<TraverseEvent>,
    pub awaiting: Awaiting,
    pub follow_symlinks: bool,
    /// Every event delivered so far, in order.
    pub delivered: Seq<TraverseEvent>,
    /// Every path whose probe was asked for so far, in order.
    pub visited: Seq<PathBuf>,
}

/// Some value occurs twice in `s`.
pub open spec fn has_repeat(s: Seq<PathBuf>) -> bool {
    exists|a: int, b: int| 0 <= a < b < s.len() && s[a] == s[b]
}

impl WalkState {
    /// Everything produced so far: delivered, then buffered.
    pub open spec fn events(self) -> Seq<TraverseEvent> {
        self.delivered + self.buffer
    }

    /// Visits whose probe outcome has been recorded.
    pub open spec fn probed(self) -> Seq<PathBuf> {
        if self.awaiting is Probe {
            self.visited.drop_last()
        } else {
            self.visited
        }
    }

    /// Visits that are over: probed, and listed where they were to be listed.
    pub open spec fn finished_visits(self) -> Seq<PathBuf> {
        if self.awaiting is Nothing {
            self.visited
        } else {
            self.visited.drop_last()
        }
    }

    /// The invariant of every state that a walk goes through.
    pub open spec fn wf(self) -> bool {
        let evs = self.events();
        &&& self.awaiting matches Awaiting::Probe(p) ==> self.visited.len() > 0
            && self.visited.last() == p
        &&& self.awaiting matches Awaiting::Listing(d) ==> self.visited.len() > 0
            && self.visited.last() == d && exists|j: int|
            0 <= j < evs.len() && #[trigger] evs[j].is_directory_entry_for(d)
        // every entry reports a length exactly when it is a file
        &&& forall|i: int|
            0 <= i < evs.len() && (#[trigger] evs[i]) is Entry ==> evs[i]->raw.wf()
        // an expansion error follows a directory entry for the same path
        &&& forall|i: int|
            0 <= i < evs.len() && (#[trigger] evs[i]).is_expansion_error() ==> exists|j: int|
                0 <= j < i && #[trigger] evs[j].is_directory_entry_for(evs[i].path())
        &&& forall|i: int|
            0 <= i < evs.len() && (#[trigger] evs[i]).is_probe_outcome() ==> self.probed().contains(
                evs[i].path(),
            )
        &&& forall|i: int|
            0 <= i < evs.len() && (#[trigger] evs[i]).is_error_for(
                evs[i].path(),
                TraverseErrorKind::ExpandFailed,
            ) ==> self.finished_visits().contains(evs[i].path())
        // two probe outcomes, or two failed listings, for one path need two visits of it
        &&& forall|i: int, j: int|
            0 <= i < evs.len() && 0 <= j < evs.len() && i != j && (#[trigger] evs[i]).path()
                == (#[trigger] evs[j]).path() && (evs[i].is_probe_outcome()
                && evs[j].is_probe_outcome() || evs[i].is_error_for(
                evs[i].path(),
                TraverseErrorKind::ExpandFailed,
            ) && evs[j].is_error_for(evs[j].path(), TraverseErrorKind::ExpandFailed))
                ==> has_repeat(self.visited)
    }
}

/// A lazy depth-first walk from one root path.
pub struct Traversal {
    stack: Vec<PathBuf>,
    out: VecDeque<TraverseEvent>,
    awaiting: Awaiting,
    cfg: TraverseConfig,
    delivered: Ghost<Seq<TraverseEvent>>,
    visited: Ghost<Seq<PathBuf>>,
}

impl View for Traversal {
    type V = WalkState;

    closed spec fn view(&self) -> WalkState {
        WalkState {
            stack: self.stack@,
            buffer: self.out@,
            awaiting: self.awaiting,
            follow_symlinks: self.cfg.follow_symlinks,
            delivered: self.delivered@,
            visited: self.visited@,
        }
    }
}

proof fn lemma_push_keeps_repeat(s: Seq<PathBuf>, x: PathBuf)
    requires
        has_repeat(s),
    ensures
        has_repeat(s.push(x)),
{
    let (a, b) = choose|a: int, b: int| 0 <= a < b < s.len() && s[a] == s[b];
    assert(s.push(x)[a] == s.push(x)[b]);
}

proof fn lemma_repeat_of_last(s: Seq<PathBuf>)
    requires
        s.len() > 0,
        s.drop_last().contains(s.last()),
    ensures
        has_repeat(s),
{
    let a = choose|a: int| 0 <= a < s.drop_last().len() && s.drop_last()[a] == s.last();
    assert(s[a] == s[s.len() - 1]);
}

/// The child paths that a listing produced, in listing order.
pub open spec fn child_paths(slots: Seq<Result<PathBuf, String>>) -> Seq<PathBuf>
    decreases slots.len(),
{
    if slots.len() == 0 {
        Seq::empty()
    } else {
        let rest = child_paths(slots.drop_last());
        match slots.last() {
            Ok(p) => rest.push(p),
            Err(_) => rest,
        }
    }
}

/// One error for `dir` per child slot of its listing that could not be read.
pub open spec fn child_errors(dir: PathBuf, slots: Seq<Result<PathBuf, String>>) -> Seq<
    TraverseEvent,
>
    decreases slots.len(),
{
    if slots.len() == 0 {
        Seq::empty()
    } else {
        let rest = child_errors(dir, slots.drop_last());
        match slots.last() {
            Ok(_) => rest,
            Err(m) => rest.push(
                TraverseEvent::Error {
                    path: dir,
                    kind: TraverseErrorKind::ReadDirEntryFailed,
                    message: m,
                },
            ),
        }
    }
}

impl Traversal {
    pub open spec fn wf(&self) -> bool {
        self@.wf()
    }

    /// Starts a walk at `root`: only the root is pending, nothing has happened yet.
    pub fn new(root: PathBuf, cfg: &TraverseConfig) -> (t: Traversal)
        ensures
            t.wf(),
            t@.stack == seq![root],
            t@.buffer == Seq::<TraverseEvent>::empty(),
            t@.awaiting is Nothing,
            t@.follow_symlinks == cfg.follow_symlinks,
            t@.delivered == Seq::<TraverseEvent>::empty(),
            t@.visited == Seq::<PathBuf>::empty(),
    {
        let mut stack: Vec<PathBuf> = Vec::new();
        stack.push(root);
        let t = Traversal {
            stack,
            out: VecDeque::new(),
            awaiting: Awaiting::Nothing,
            cfg: TraverseConfig { follow_symlinks: cfg.follow_symlinks },
            delivered: Ghost(Seq::empty()),
            visited: Ghost(Seq::empty()),
        };
        assert(t@.events() =~= Seq::<TraverseEvent>::empty());
        t
    }

    /// Advances the walk by one step.
    ///
    /// While a probe or a listing is outstanding, asks for it again; so a
    /// directory's entry is delivered only once its listing has been recorded,
    /// and the errors of that listing are buffered behind it. Otherwise
    /// delivers the oldest buffered event; with none buffered, takes the next
    /// path off the stack and asks for its probe; with the stack empty too, the
    /// walk is finished.
    pub fn next_step(&mut self) -> (step: WalkStep)
        requires
            old(self).wf(),
        ensures
            final(self).wf(),
            final(self)@.follow_symlinks == old(self)@.follow_symlinks,
            match old(self)@.awaiting {
                Awaiting::Probe(p) => step == (WalkStep::Probe {
                    path: p,
                    follow_symlinks: old(self)@.follow_symlinks,
                }) && final(self)@ == old(self)@,
                Awaiting::Listing(d) => step == (WalkStep::List { path: d }) && final(self)@
                    == old(self)@,
                Awaiting::Nothing => if old(self)@.buffer.len() > 0 {
                    &&& step == WalkStep::Deliver(old(self)@.buffer[0])
                    &&& final(self)@ == (WalkState {
                        buffer: old(self)@.buffer.drop_first(),
                        delivered: old(self)@.delivered.push(old(self)@.buffer[0]),
                        ..old(self)@
                    })
                } else if old(self)@.stack.len() > 0 {
                    let p = old(self)@.stack.last();
                    &&& step == (WalkStep::Probe {
                        path: p,
                        follow_symlinks: old(self)@.follow_symlinks,
                    })
                    &&& final(self)@ == (WalkState {
                        stack: old(self)@.stack.drop_last(),
                        awaiting: Awaiting::Probe(p),
                        visited: old(self)@.visited.push(p),
                        ..old(self)@
                    })
                } else {
                    step is Finished && final(self)@ == old(self)@
                },
            },
    {
        match &self.awaiting {
            Awaiting::Probe(p) => {
                return WalkStep::Probe { path: p.clone(), follow_symlinks: self.cfg.follow_symlinks };
            },
            Awaiting::Listing(d) => {
                return WalkStep::List { path: d.clone() };
            },
            Awaiting::Nothing => {},
        }
        let ghost pre = self@;
        match self.out.pop_front() {
            Some(ev) => {
                self.delivered = Ghost(self.delivered@.push(ev));
                assert(self@.events() =~= pre.events());
                return WalkStep::Deliver(ev);
            },
            None => {},
        }
        match self.stack.pop() {
            Some(p) => {
                proof {
                    assert(self.visited@.push(p).drop_last() =~= self.visited@);
                    if has_repeat(self.visited@) {
                        lemma_push_keeps_repeat(self.visited@, p);
                    }
                }
                self.visited = Ghost(self.visited@.push(p));
                self.awaiting = Awaiting::Probe(p.clone());
                WalkStep::Probe { path: p, follow_symlinks: self.cfg.follow_symlinks }
            },
            None => WalkStep::Finished,
        }
    }
    /// Records the outcome of the probe that the walk asked for.
    ///
    /// A successful probe buffers an entry for the path, normalized from the
    /// facts; the walk then asks for a listing exactly when the entry is a
    /// directory. A failed probe buffers a `StatFailed` error, and the path's
    /// subtree is never visited. Without a probe outstanding nothing changes.
    pub fn record_probe(&mut self, outcome: Result<StatFacts, String>)
        requires
            old(self).wf(),
        ensures
            final(self).wf(),
            final(self)@.stack == old(self)@.stack,
            final(self)@.follow_symlinks == old(self)@.follow_symlinks,
            final(self)@.delivered == old(self)@.delivered,
            final(self)@.visited == old(self)@.visited,
            match old(self)@.awaiting {
                Awaiting::Probe(p) => match outcome {
                    Ok(facts) => {
                        &&& final(self)@.buffer == old(self)@.buffer.push(
                            TraverseEvent::Entry { path: p, raw: raw_of(facts) },
                        )
                        &&& if raw_of(facts).kind == FsEntryKind::Directory {
                            final(self)@.awaiting == Awaiting::Listing(p)
                        } else {
                            final(self)@.awaiting is Nothing
                        }
                    },
                    Err(message) => {
                        &&& final(self)@.buffer == old(self)@.buffer.push(
                            TraverseEvent::Error { path: p, kind: TraverseErrorKind::StatFailed, message },
                        )
                        &&& final(self)@.awaiting is Nothing
                    },
                },
                _ => final(self)@ == old(self)@,
            },
    {
        let p = match &self.awaiting {
            Awaiting::Probe(p) => p.clone(),
            _ => {
                return ;
            },
        };
        let ghost pre = self@;
        match outcome {
            Ok(facts) => {
                let raw = raw_metadata(facts);
                let is_dir = raw.kind == FsEntryKind::Directory;
                self.out.push_back(TraverseEvent::Entry { path: p.clone(), raw });
                if is_dir {
                    self.awaiting = Awaiting::Listing(p);
                } else {
                    self.awaiting = Awaiting::Nothing;
                }
            },
            Err(message) => {
                self.out.push_back(
                    TraverseEvent::Error { path: p, kind: TraverseErrorKind::StatFailed, message },
                );
                self.awaiting = Awaiting::Nothing;
            },
        }
        proof {
            let evs = pre.events();
            let n = evs.len() as int;
            let post = self@;
            assert(post.events() =~= evs.push(post.buffer.last()));
            assert forall|a: PathBuf| pre.finished_visits().contains(a) implies post.finished_visits().contains(a) by {
                let k = choose|k: int| 0 <= k < pre.finished_visits().len() && pre.finished_visits()[k] == a;
                assert(post.finished_visits()[k] == a);
            }
            assert forall|a: PathBuf| pre.probed().contains(a) implies post.probed().contains(a) by {
                let k = choose|k: int| 0 <= k < pre.probed().len() && pre.probed()[k] == a;
                assert(post.probed()[k] == a);
            }
            assert(post.probed().contains(p)) by {
                assert(post.probed()[post.visited.len() - 1] == p);
            }
            if post.awaiting is Listing {
                assert(post.events()[n].is_directory_entry_for(p));
            }
            assert forall|i: int|
                0 <= i < post.events().len() && (#[trigger] post.events()[i]).is_expansion_error()
                implies exists|j: int| 0 <= j < i && #[trigger] post.events()[j].is_directory_entry_for(post.events()[i].path()) by {
                assert(i < n);
                assert(post.events()[i] == evs[i]);
                let j = choose|j: int| 0 <= j < i && #[trigger] evs[j].is_directory_entry_for(evs[i].path());
                assert(post.events()[j] == evs[j]);
            }
            assert forall|i: int, j: int|
                0 <= i < post.events().len() && 0 <= j < post.events().len() && i != j
                    && (#[trigger] post.events()[i]).path() == (#[trigger] post.events()[j]).path()
                    && post.events()[i].is_probe_outcome() && post.events()[j].is_probe_outcome()
                implies has_repeat(post.visited) by {
                if i == n || j == n {
                    let o = if i == n { j } else { i };
                    assert(evs[o].is_probe_outcome());
                    lemma_repeat_of_last(post.visited);
                }
            }
        }
    }

    /// Records the outcome of the listing that the walk asked for.
    ///
    /// A failed listing buffers one `ExpandFailed` error for the directory and
    /// pushes nothing. A successful one pushes each child path onto the stack in
    /// listing order and buffers a `ReadDirEntryFailed` error for the directory
    /// for each child slot that could not be read. Without a listing outstanding
    /// nothing changes.
    pub fn record_listing(&mut self, outcome: Result<Vec<Result<PathBuf, String>>, String>)
        requires
            old(self).wf(),
        ensures
            final(self).wf(),
            final(self)@.follow_symlinks == old(self)@.follow_symlinks,
            final(self)@.delivered == old(self)@.delivered,
            final(self)@.visited == old(self)@.visited,
            match old(self)@.awaiting {
                Awaiting::Listing(d) => {
                    &&& final(self)@.awaiting is Nothing
                    &&& match outcome {
                        Ok(slots) => {
                            &&& final(self)@.stack == old(self)@.stack + child_paths(slots@)
                            &&& final(self)@.buffer == old(self)@.buffer + child_errors(d, slots@)
                        },
                        Err(message) => {
                            &&& final(self)@.stack == old(self)@.stack
                            &&& final(self)@.buffer == old(self)@.buffer.push(
                                TraverseEvent::Error {
                                    path: d,
                                    kind: TraverseErrorKind::ExpandFailed,
                                    message,
                                },
                            )
                        },
                    }
                },
                _ => final(self)@ == old(self)@,
            },
    {
        let d = match &self.awaiting {
            Awaiting::Listing(d) => d.clone(),
            _ => {
                return ;
            },
        };
        let ghost pre = self@;
        match outcome {
            Ok(slots) => {
                let mut i: usize = 0;
                while i < slots.len()
                    invariant
                        i <= slots.len(),
                        self.stack@ == pre.stack + child_paths(slots@.take(i as int)),
                        self.out@ == pre.buffer + child_errors(d, slots@.take(i as int)),
                        self.awaiting == pre.awaiting,
                        self.cfg.follow_symlinks == pre.follow_symlinks,
                        self.delivered@ == pre.delivered,
                        self.visited@ == pre.visited,
                        forall|k: int|
                            pre.buffer.len() <= k < self.out@.len() ==> (#[trigger] self.out@[k]).is_error_for(
                                d,
                                TraverseErrorKind::ReadDirEntryFailed,
                            ),
                    decreases slots.len() - i,
                {
                    proof {
                        assert(slots@.take(i + 1).drop_last() =~= slots@.take(i as int));
                    }
                    match &slots[i] {
                        Ok(c) => {
                            self.stack.push(c.clone());
                        },
                        Err(m) => {
                            self.out.push_back(
                                TraverseEvent::Error {
                                    path: d.clone(),
                                    kind: TraverseErrorKind::ReadDirEntryFailed,
                                    message: m.clone(),
                                },
                            );
                        },
                    }
                    i = i + 1;
                }
                proof {
                    assert(slots@.take(slots@.len() as int) =~= slots@);
                }
            },
            Err(message) => {
                self.out.push_back(
                    TraverseEvent::Error { path: d, kind: TraverseErrorKind::ExpandFailed, message },
                );
            },
        }
        self.awaiting = Awaiting::Nothing;
        proof {
            let evs = pre.events();
            let n = evs.len() as int;
            let post = self@;
            let added = post.buffer.subrange(pre.buffer.len() as int, post.buffer.len() as int);
            assert(post.events() =~= evs + added);
            assert forall|a: PathBuf| pre.finished_visits().contains(a) implies post.finished_visits().contains(a) by {
                let k = choose|k: int| 0 <= k < pre.finished_visits().len() && pre.finished_visits()[k] == a;
                assert(post.finished_visits()[k] == a);
            }
            assert(post.finished_visits().contains(d)) by {
                assert(post.finished_visits()[post.visited.len() - 1] == d);
            }
            let j0 = choose|j: int| 0 <= j < evs.len() && #[trigger] evs[j].is_directory_entry_for(d);
            assert forall|i: int|
                0 <= i < post.events().len() && (#[trigger] post.events()[i]).is_expansion_error()
                implies exists|j: int| 0 <= j < i && #[trigger] post.events()[j].is_directory_entry_for(post.events()[i].path()) by {
                if i >= n {
                    assert(post.events()[i].path() == d);
                    assert(post.events()[j0] == evs[j0]);
                } else {
                    assert(post.events()[i] == evs[i]);
                    let j = choose|j: int| 0 <= j < i && #[trigger] evs[j].is_directory_entry_for(evs[i].path());
                    assert(post.events()[j] == evs[j]);
                }
            }
            assert forall|i: int, j: int|
                0 <= i < post.events().len() && 0 <= j < post.events().len() && i != j
                    && (#[trigger] post.events()[i]).path() == (#[trigger] post.events()[j]).path()
                    && post.events()[i].is_error_for(post.events()[i].path(), TraverseErrorKind::ExpandFailed)
                    && post.events()[j].is_error_for(post.events()[j].path(), TraverseErrorKind::ExpandFailed)
                implies has_repeat(post.visited) by {
                if i >= n || j >= n {
                    let o = if i >= n { j } else { i };
                    assert(evs[o].is_error_for(evs[o].path(), TraverseErrorKind::ExpandFailed));
                    lemma_repeat_of_last(post.visited);
                }
            }
        }
    }
}


/// An expansion error for a path comes after a directory entry for that path.
pub open spec fn entry_precedes_expansion_errors(evs: Seq<TraverseEvent>) -> bool {
    forall|i: int|
        0 <= i < evs.len() && (#[trigger] evs[i]).is_expansion_error() ==> exists|j: int|
            0 <= j < i && #[trigger] evs[j].is_directory_entry_for(evs[i].path())
}

/// No path has both a failed probe and an entry.
pub open spec fn failed_probe_excludes_entry(evs: Seq<TraverseEvent>) -> bool {
    forall|i: int, j: int|
        0 <= i < evs.len() && 0 <= j < evs.len() && (#[trigger] evs[i]).is_error_for(
            evs[i].path(),
            TraverseErrorKind::StatFailed,
        ) ==> !(#[trigger] evs[j]).is_entry_for(evs[i].path())
}

/// Each path has at most one probe outcome: one entry or one failed probe.
pub open spec fn one_probe_outcome_per_path(evs: Seq<TraverseEvent>) -> bool {
    forall|i: int, j: int|
        0 <= i < evs.len() && 0 <= j < evs.len() && (#[trigger] evs[i]).is_probe_outcome()
            && (#[trigger] evs[j]).is_probe_outcome() && evs[i].path() == evs[j].path() ==> i == j
}

/// Each path has at most one failed listing.
pub open spec fn one_failed_listing_per_path(evs: Seq<TraverseEvent>) -> bool {
    forall|i: int, j: int|
        0 <= i < evs.len() && 0 <= j < evs.len() && (#[trigger] evs[i]).is_error_for(
            evs[i].path(),
            TraverseErrorKind::ExpandFailed,
        ) && (#[trigger] evs[j]).is_error_for(evs[i].path(), TraverseErrorKind::ExpandFailed)
            ==> i == j
}

proof fn lemma_no_repeat(s: Seq<PathBuf>)
    requires
        s.no_duplicates(),
    ensures
        !has_repeat(s),
{
}

/// Every error about expanding a directory, whether its listing failed or one
/// of its child slots could not be read, comes after an entry that reports that
/// path as a directory: in what was delivered, and in all that was produced.
pub proof fn lemma_entry_precedes_expansion_error(t: &Traversal)
    requires
        t.wf(),
    ensures
        entry_precedes_expansion_errors(t@.events()),
        entry_precedes_expansion_errors(t@.delivered),
{
    let evs = t@.events();
    let del = t@.delivered;
    assert forall|i: int| 0 <= i < del.len() && (#[trigger] del[i]).is_expansion_error()
        implies exists|j: int| 0 <= j < i && #[trigger] del[j].is_directory_entry_for(del[i].path()) by {
        assert(evs[i] == del[i]);
        let j = choose|j: int| 0 <= j < i && #[trigger] evs[j].is_directory_entry_for(evs[i].path());
        assert(evs[j] == del[j]);
    }
}

/// Where the walk has not visited any path twice, each path has at most one
/// probe outcome, so a path whose probe failed never has an entry, and a path
/// has at most one failed listing.
pub proof fn lemma_failed_probe_excludes_entry(t: &Traversal)
    requires
        t.wf(),
        t@.visited.no_duplicates(),
    ensures
        one_probe_outcome_per_path(t@.events()),
        failed_probe_excludes_entry(t@.events()),
        one_failed_listing_per_path(t@.events()),
{
    lemma_no_repeat(t@.visited);
    let evs = t@.events();
    assert forall|i: int, j: int|
        0 <= i < evs.len() && 0 <= j < evs.len() && (#[trigger] evs[i]).is_error_for(
            evs[i].path(),
            TraverseErrorKind::StatFailed,
        ) implies !(#[trigger] evs[j]).is_entry_for(evs[i].path()) by {
        if evs[j].is_entry_for(evs[i].path()) {
            assert(evs[i].is_probe_outcome() && evs[j].is_probe_outcome());
        }
    }
}

/// Every entry reports a length exactly when it is a regular file.
pub proof fn lemma_length_only_for_files(t: &Traversal)
    requires
        t.wf(),
    ensures
        forall|i: int|
            0 <= i < t@.events().len() && (#[trigger] t@.events()[i]) is Entry ==> (
            t@.events()[i]->raw.logical_len_bytes is Some <==> t@.events()[i]->raw.kind
                == FsEntryKind::File),
{
}

/// A listing is asked for, and children can be pushed, only for a path with a
/// directory entry; where no path was visited twice, that is the path's only
/// entry, so no file, symlink or other node is ever expanded.
pub proof fn lemma_only_directories_expand(t: &Traversal)
    requires
        t.wf(),
        t@.awaiting is Listing,
    ensures
        exists|j: int|
            0 <= j < t@.events().len() && #[trigger] t@.events()[j].is_directory_entry_for(
                t@.awaiting->Listing_0,
            ),
        t@.visited.no_duplicates() ==> forall|j: int|
            0 <= j < t@.events().len() && #[trigger] t@.events()[j].is_entry_for(
                t@.awaiting->Listing_0,
            ) ==> t@.events()[j]->raw.kind == FsEntryKind::Directory,
{
    let evs = t@.events();
    let d = t@.awaiting->Listing_0;
    if t@.visited.no_duplicates() {
        lemma_no_repeat(t@.visited);
        let j0 = choose|j: int| 0 <= j < evs.len() && #[trigger] evs[j].is_directory_entry_for(d);
        assert forall|j: int| 0 <= j < evs.len() && #[trigger] evs[j].is_entry_for(d) implies evs[j]->raw.kind == FsEntryKind::Directory by {
            assert(evs[j0].is_probe_outcome() && evs[j].is_probe_outcome());
        }
    }
}

/// A directory whose listing failed, in a walk that visited no path twice, has
/// exactly one entry, which reports a directory and comes first, and exactly one
/// failed listing.
pub proof fn lemma_failed_listing_isolated(t: &Traversal, i: int)
    requires
        t.wf(),
        t@.visited.no_duplicates(),
        0 <= i < t@.events().len(),
        t@.events()[i].is_error_for(t@.events()[i].path(), TraverseErrorKind::ExpandFailed),
    ensures
        exists|j: int|
            0 <= j < i && #[trigger] t@.events()[j].is_directory_entry_for(t@.events()[i].path()),
        forall|j: int, k: int|
            0 <= j < t@.events().len() && 0 <= k < t@.events().len()
                && (#[trigger] t@.events()[j]).is_entry_for(t@.events()[i].path())
                && (#[trigger] t@.events()[k]).is_entry_for(t@.events()[i].path()) ==> j == k,
        forall|k: int|
            0 <= k < t@.events().len() && (#[trigger] t@.events()[k]).is_error_for(
                t@.events()[i].path(),
                TraverseErrorKind::ExpandFailed,
            ) ==> k == i,
{
    let evs = t@.events();
    lemma_no_repeat(t@.visited);
    assert(evs[i].is_expansion_error());
    assert forall|j: int, k: int|
        0 <= j < evs.len() && 0 <= k < evs.len() && (#[trigger] evs[j]).is_entry_for(evs[i].path())
            && (#[trigger] evs[k]).is_entry_for(evs[i].path()) implies j == k by {
        assert(evs[j].is_probe_outcome() && evs[k].is_probe_outcome());
    }
    assert forall|k: int|
        0 <= k < evs.len() && (#[trigger] evs[k]).is_error_for(evs[i].path(), TraverseErrorKind::ExpandFailed)
        implies k == i by {
        assert(evs[k].path() == evs[i].path());
    }
}

} // verus!
