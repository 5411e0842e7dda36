//! The live walk, as a machine that decides and asks.
//!
//! A walk alternates questions to the filesystem (stat this root, list this directory,
//! stat this entry) with decisions. [`LiveWalker`] holds the mount table, [`Walk`] the
//! state of one walk. Whoever drives the walk looks at [`Walk::action`], does what it
//! asks, and hands the answer back:
//!
//! - [`WalkAction::StatRoot`] is answered with [`LiveWalker::take_root`];
//! - [`WalkAction::List`] with [`Walk::take_listing`];
//! - [`WalkAction::StatEntry`] with [`LiveWalker::take_entry`];
//! - [`WalkAction::Done`] ends the walk, and [`Walk::finish`] gives its outcome.
//!
//! The walk skips pseudo-filesystems, descends local submounts but skips network mounts
//! by filesystem type while recording every skip, never records or follows a symlink,
//! and descends each directory inode once.

use vstd::hash_set::HashSetWithView;
use vstd::prelude::*;

use crate::exposure::index;
use crate::exposure::index::{InodeStat, SkippedMount, WalkOutcome};
use crate::exposure::mounts;
use crate::exposure::mounts::MountTable;
use crate::exposure::scope;
use crate::exposure::{ErrorView, ExposureError};
use crate::inspect;
use crate::text;

verus! {

broadcast use {
    vstd::string::group_string_axioms,
    vstd::std_specs::hash::group_hash_axioms,
};

/// What an inode is, to the walk.
#[derive(Debug, Clone, Copy, PartialEq, Eq, Structural)]
pub enum FileKind {
    /// A symbolic link.
    Symlink,
    /// A directory.
    Directory,
    /// Anything else.
    Other,
}

/// What `lstat` says of an inode.
#[derive(Debug, Clone, Copy, PartialEq, Eq, Structural)]
pub struct Lstat {
    /// What the inode is.
    pub kind: FileKind,
    /// Owning user id.
    pub uid: u32,
    /// Owning group id.
    pub gid: u32,
    /// Raw Unix mode bits.
    pub mode: u32,
    /// The device that holds the inode.
    pub dev: u64,
    /// The inode number on that device.
    pub ino: u64,
}

/// The answer to the question what a scan root is.
#[derive(Debug, PartialEq, Eq)]
pub enum RootStat {
    /// The root exists.
    Found(Lstat),
    /// There is no such path: normal for a default root.
    Absent,
    /// The root cannot be stat'd, with the reason.
    Failed(String),
}

/// What the walk asks for next.
#[derive(Debug, PartialEq, Eq)]
pub enum WalkAction {
    /// `lstat` this scan root.
    StatRoot(String),
    /// List this directory.
    List(String),
    /// `lstat` this entry of the directory listed last.
    StatEntry(String),
    /// Nothing: the walk is over.
    Done,
}

/// The contents of a [`WalkAction`].
pub enum ActionView {
    /// See [`WalkAction::StatRoot`].
    StatRoot(Seq<char>),
    /// See [`WalkAction::List`].
    List(Seq<char>),
    /// See [`WalkAction::StatEntry`].
    StatEntry(Seq<char>),
    /// See [`WalkAction::Done`].
    Done,
}

impl View for WalkAction {
    type V = ActionView;

    open spec fn view(&self) -> ActionView {
        match self {
            WalkAction::StatRoot(p) => ActionView::StatRoot(p@),
            WalkAction::List(p) => ActionView::List(p@),
            WalkAction::StatEntry(p) => ActionView::StatEntry(p@),
            WalkAction::Done => ActionView::Done,
        }
    }
}

// ---------------------------------------------------------------------------
// The directories that were entered
// ---------------------------------------------------------------------------

/// The key under which a directory inode is remembered.
pub open spec fn dir_key(dev: u64, ino: u64) -> u128 {
    (dev * 0x1_0000_0000_0000_0000 + ino) as u128
}

/// The directory inodes a walk has entered, as pairs of device and inode number.
pub struct VisitedDirs {
    keys: HashSetWithView<u128>,
}

impl View for VisitedDirs {
    type V = Set<(u64, u64)>;

    closed spec fn view(&self) -> Set<(u64, u64)> {
        Set::new(|id: (u64, u64)| self.keys@.contains(dir_key(id.0, id.1)))
    }
}

impl VisitedDirs {
    /// No directory.
    pub fn new() -> (r: Self)
        ensures
            r@ == Set::<(u64, u64)>::empty(),
    {
        let r = VisitedDirs { keys: HashSetWithView::new() };
        proof {
            assert(r@ =~= Set::<(u64, u64)>::empty());
        }
        r
    }
}

/// Record a directory inode; true if it is new (safe to descend), false if it was seen
/// before (a bind-mount cycle on the same device).
pub fn enter_dir(visited: &mut VisitedDirs, dev: u64, ino: u64) -> (new: bool)
    ensures
        new == !old(visited)@.contains((dev, ino)),
        final(visited)@ == old(visited)@.insert((dev, ino)),
{
    let ghost was = visited@;
    let key = (dev as u128) * 0x1_0000_0000_0000_0000 + (ino as u128);
    let new = visited.keys.insert(key);
    proof {
        assert(key == dir_key(dev, ino));
        assert(visited@ =~= was.insert((dev, ino)));
    }
    new
}

// ---------------------------------------------------------------------------
// The decisions
// ---------------------------------------------------------------------------

/// The state of a walk.
#[verifier::ext_equal]
pub struct WalkState {
    /// The scan roots that are left.
    pub roots: Seq<Seq<char>>,
    /// The directories to list, the next one last.
    pub stack: Seq<Seq<char>>,
    /// The entries of the directory listed last that are left.
    pub entries: Seq<Seq<char>>,
    /// The directory inodes entered under the present root.
    pub visited: Set<(u64, u64)>,
    /// What was recorded.
    pub outcome: index::WalkView,
}

/// The paths of the list that are not pseudo-filesystem roots.
pub open spec fn real_paths(paths: Seq<Seq<char>>) -> Seq<Seq<char>>
    decreases paths.len(),
{
    if paths.len() == 0 {
        seq![]
    } else {
        let before = real_paths(paths.drop_last());
        if scope::pseudo_fs(paths.last()) {
            before
        } else {
            before.push(paths.last())
        }
    }
}

/// The stat record of an inode.
pub open spec fn stat_of(path: Seq<char>, l: Lstat) -> index::StatView {
    index::StatView {
        path,
        uid: l.uid,
        gid: l.gid,
        mode: l.mode,
        is_dir: l.kind is Directory,
    }
}

/// The outcome with one more stat record.
pub open spec fn recorded(w: index::WalkView, path: Seq<char>, l: Lstat) -> index::WalkView {
    index::WalkView { stats: w.stats.push(stat_of(path, l)), ..w }
}

/// The outcome with one more skipped mount.
pub open spec fn noticed(w: index::WalkView, path: Seq<char>, fstype: Seq<char>) -> index::WalkView {
    index::WalkView { skipped: w.skipped.push(index::SkipView { path, fstype }), ..w }
}

impl WalkState {
    /// The state before anything was asked. Pseudo-filesystem roots are left out.
    pub open spec fn starting(roots: Seq<Seq<char>>) -> WalkState {
        WalkState {
            roots: real_paths(roots),
            stack: seq![],
            entries: seq![],
            visited: Set::empty(),
            outcome: index::WalkView { stats: seq![], skipped: seq![] },
        }
    }

    /// What the walk asks for next: the entries of the open directory, then the
    /// directories on the stack, then the roots.
    pub open spec fn action(self) -> ActionView {
        if self.entries.len() > 0 {
            ActionView::StatEntry(self.entries[0])
        } else if self.stack.len() > 0 {
            ActionView::List(self.stack.last())
        } else if self.roots.len() > 0 {
            ActionView::StatRoot(self.roots[0])
        } else {
            ActionView::Done
        }
    }

    /// The state after a root was found to be `l`. A symlink is passed over; a root that
    /// is a network or pseudo mount is noticed and passed over; any other root is
    /// recorded, and opened if it is a directory.
    pub open spec fn with_root(self, l: Lstat, mount: Option<Seq<char>>) -> WalkState {
        let root = self.roots[0];
        let next = WalkState { roots: self.roots.skip(1), ..self };
        if l.kind is Symlink {
            next
        } else if let Some(fstype) = mount {
            WalkState { outcome: noticed(self.outcome, root, fstype), ..next }
        } else {
            let next = WalkState { outcome: recorded(self.outcome, root, l), ..next };
            if l.kind is Directory {
                WalkState {
                    stack: seq![root],
                    visited: Set::empty().insert((l.dev, l.ino)),
                    ..next
                }
            } else {
                next
            }
        }
    }

    /// The state after a directory was listed. One that cannot be read has no entries.
    pub open spec fn with_listing(self, listing: Option<Seq<Seq<char>>>) -> WalkState {
        WalkState {
            stack: self.stack.drop_last(),
            entries: match listing {
                Some(paths) => real_paths(paths),
                None => seq![],
            },
            ..self
        }
    }

    /// The state after an entry was found to be `l`. A symlink, or an entry that cannot
    /// be stat'd, is passed over; any other entry is recorded. A directory that is a
    /// network or pseudo mount is noticed, whatever was entered before; any other
    /// directory is descended where it was not entered before.
    pub open spec fn with_entry(self, l: Option<Lstat>, mount: Option<Seq<char>>) -> WalkState {
        let path = self.entries[0];
        let next = WalkState { entries: self.entries.skip(1), ..self };
        match l {
            None => next,
            Some(l) => if l.kind is Symlink {
                next
            } else {
                let next = WalkState { outcome: recorded(self.outcome, path, l), ..next };
                if !(l.kind is Directory) {
                    next
                } else if let Some(fstype) = mount {
                    WalkState { outcome: noticed(next.outcome, path, fstype), ..next }
                } else if self.visited.contains((l.dev, l.ino)) {
                    next
                } else {
                    WalkState {
                        visited: self.visited.insert((l.dev, l.ino)),
                        stack: self.stack.push(path),
                        ..next
                    }
                }
            },
        }
    }
}

/// The state of one walk.
pub struct Walk {
    roots: Vec<String>,
    next_root: usize,
    stack: Vec<String>,
    entries: Vec<String>,
    next_entry: usize,
    visited: VisitedDirs,
    outcome: WalkOutcome,
}

impl View for Walk {
    type V = WalkState;

    closed spec fn view(&self) -> WalkState {
        WalkState {
            roots: text::views(self.roots@).skip(self.next_root as int),
            stack: text::views(self.stack@),
            entries: text::views(self.entries@).skip(self.next_entry as int),
            visited: self.visited@,
            outcome: self.outcome@,
        }
    }
}

/// The listing, as paths.
pub open spec fn listing_view(l: Option<Vec<String>>) -> Option<Seq<Seq<char>>> {
    match l {
        Some(v) => Some(text::views(v@)),
        None => None,
    }
}

/// Drop the paths that are pseudo-filesystem roots.
fn keep_real(paths: &[String]) -> (out: Vec<String>)
    ensures
        text::views(out@) == real_paths(text::views(paths@)),
{
    let ghost all = text::views(paths@);
    let mut out: Vec<String> = Vec::new();
    let mut i: usize = 0;
    proof {
        assert(text::views(out@) =~= real_paths(all.take(0)));
    }
    while i < paths.len()
        invariant
            all == text::views(paths@),
            i <= paths@.len(),
            text::views(out@) == real_paths(all.take(i as int)),
        decreases paths@.len() - i,
    {
        let ghost was = text::views(out@);
        let path = &paths[i];
        proof {
            assert(all.take(i + 1).drop_last() =~= all.take(i as int));
            assert(all.take(i + 1).last() == path@);
        }
        if !scope::is_pseudo_fs(path) {
            out.push(path.clone());
            proof {
                assert(text::views(out@) =~= was.push(path@));
            }
        }
        i += 1;
    }
    proof {
        assert(all.take(i as int) =~= all);
    }
    out
}

/// Append one inode's stat record.
fn push_stat(l: &Lstat, path: &str, outcome: &mut WalkOutcome)
    ensures
        final(outcome)@ == recorded(old(outcome)@, path@, *l),
{
    let ghost was = outcome@;
    let is_dir = match l.kind {
        FileKind::Directory => true,
        _ => false,
    };
    let stat = InodeStat { path: path.to_owned(), uid: l.uid, gid: l.gid, mode: l.mode, is_dir };
    let ghost s = stat@;
    outcome.stats.push(stat);
    proof {
        assert(outcome@.stats =~= was.stats.push(s));
    }
}

/// Append one skipped mount.
fn push_skip(path: &str, fstype: String, outcome: &mut WalkOutcome)
    ensures
        final(outcome)@ == noticed(old(outcome)@, path@, fstype@),
{
    let ghost was = outcome@;
    let skip = SkippedMount { path: path.to_owned(), fstype };
    let ghost s = skip@;
    outcome.skipped_mounts.push(skip);
    proof {
        assert(outcome@.skipped =~= was.skipped.push(s));
    }
}

impl Walk {
    #[verifier::type_invariant]
    spec fn well_formed(self) -> bool {
        self.next_root <= self.roots@.len() && self.next_entry <= self.entries@.len()
    }

    /// What the walk asks for next.
    pub fn action(&self) -> (r: WalkAction)
        ensures
            r@ == self@.action(),
    {
        proof {
            use_type_invariant(self);
        }
        if self.next_entry < self.entries.len() {
            WalkAction::StatEntry(self.entries[self.next_entry].clone())
        } else if self.stack.len() > 0 {
            WalkAction::List(self.stack[self.stack.len() - 1].clone())
        } else if self.next_root < self.roots.len() {
            WalkAction::StatRoot(self.roots[self.next_root].clone())
        } else {
            WalkAction::Done
        }
    }

    /// Take the listing of the directory that was asked for: the paths of its entries,
    /// or nothing where it could not be read.
    pub fn take_listing(self, listing: Option<Vec<String>>) -> (r: Walk)
        requires
            self@.action() is List,
        ensures
            r@ == self@.with_listing(listing_view(listing)),
    {
        proof {
            use_type_invariant(&self);
        }
        let ghost was = self@;
        let mut stack = self.stack;
        let _ = stack.pop();
        let entries = match listing {
            Some(paths) => keep_real(paths.as_slice()),
            None => Vec::new(),
        };
        let r = Walk {
            roots: self.roots,
            next_root: self.next_root,
            stack,
            entries,
            next_entry: 0,
            visited: self.visited,
            outcome: self.outcome,
        };
        proof {
            assert(r@.stack =~= was.stack.drop_last());
            assert(r@.entries =~= was.with_listing(listing_view(listing)).entries);
        }
        r
    }

    /// The outcome of a walk that is over.
    pub fn finish(self) -> (r: WalkOutcome)
        requires
            self@.action() is Done,
        ensures
            r@ == self@.outcome,
    {
        self.outcome
    }
}

/// The live filesystem walker: the mount table by which it decides.
pub struct LiveWalker {
    /// Classification of mount points. Empty where no mount table can be read, in which
    /// case the walk descends everything.
    pub mounts: MountTable,
}

impl LiveWalker {
    /// The walker for the text of the mount table, where that could be read.
    pub fn new(mountinfo: Option<&str>) -> (r: Self)
        ensures
            forall|p: Seq<char>| #[trigger]
                r.mounts.fstype_at(p) == mounts::live_at(inspect::opt_str(mountinfo), p),
    {
        LiveWalker { mounts: MountTable::live(mountinfo) }
    }

    /// The walker for an explicit mount table.
    pub fn with_mounts(mounts: MountTable) -> (r: Self)
        ensures
            r.mounts == mounts,
    {
        LiveWalker { mounts }
    }

    /// Start a walk of `roots`. Pseudo-filesystem roots are left out.
    pub fn start(&self, roots: &[String]) -> (r: Walk)
        ensures
            r@ == WalkState::starting(text::views(roots@)),
    {
        let kept = keep_real(roots);
        let r = Walk {
            roots: kept,
            next_root: 0,
            stack: Vec::new(),
            entries: Vec::new(),
            next_entry: 0,
            visited: VisitedDirs::new(),
            outcome: WalkOutcome::default(),
        };
        proof {
            assert(r@.roots =~= real_paths(text::views(roots@)));
            assert(r@.stack =~= seq![]);
            assert(r@.entries =~= seq![]);
        }
        r
    }

    /// Take the answer for the root that was asked for. A root that exists and cannot be
    /// stat'd ends the walk with an error; an absent one is passed over.
    pub fn take_root(&self, walk: Walk, stat: RootStat) -> (r: Result<Walk, ExposureError>)
        requires
            walk@.action() is StatRoot,
        ensures
            match stat {
                RootStat::Found(l) => r is Ok && r->Ok_0@ == walk@.with_root(
                    l,
                    self.mounts.fstype_at(walk@.roots[0]),
                ),
                RootStat::Absent => r is Ok && r->Ok_0@ == (WalkState {
                    roots: walk@.roots.skip(1),
                    ..walk@
                }),
                RootStat::Failed(reason) => r is Err && r->Err_0@ == (ErrorView::Walk {
                    root: walk@.roots[0],
                    reason: reason@,
                }),
            },
    {
        proof {
            use_type_invariant(&walk);
        }
        let ghost was = walk@;
        let n = walk.roots.len();
        let root = walk.roots[walk.next_root].clone();
        let next_root: usize = walk.next_root + 1;
        let mut outcome = walk.outcome;
        let mut stack = walk.stack;
        let mut visited = walk.visited;
        proof {
            assert(was.roots[0] == root@);
            assert(was.roots.skip(1) =~= text::views(walk.roots@).skip(next_root as int));
        }
        match stat {
            RootStat::Absent => {},
            RootStat::Failed(reason) => {
                return Err(ExposureError::Walk { root, reason });
            },
            RootStat::Found(l) => match l.kind {
                FileKind::Symlink => {},
                _ => match self.mounts.skip_fstype(&root) {
                    Some(fstype) => {
                        push_skip(&root, fstype, &mut outcome);
                    },
                    None => {
                        push_stat(&l, &root, &mut outcome);
                        match l.kind {
                            FileKind::Directory => {
                                visited = VisitedDirs::new();
                                let _ = enter_dir(&mut visited, l.dev, l.ino);
                                stack = Vec::new();
                                stack.push(root);
                                proof {
                                    assert(text::views(stack@) =~= seq![was.roots[0]]);
                                }
                            },
                            _ => {},
                        }
                    },
                },
            },
        }
        let r = Walk {
            roots: walk.roots,
            next_root,
            stack,
            entries: walk.entries,
            next_entry: walk.next_entry,
            visited,
            outcome,
        };
        Ok(r)
    }

    /// Take the answer for the entry that was asked for, or nothing where it could not
    /// be stat'd.
    pub fn take_entry(&self, walk: Walk, stat: Option<Lstat>) -> (r: Walk)
        requires
            walk@.action() is StatEntry,
        ensures
            r@ == walk@.with_entry(stat, self.mounts.fstype_at(walk@.entries[0])),
    {
        proof {
            use_type_invariant(&walk);
        }
        let ghost was = walk@;
        let n = walk.entries.len();
        let path = walk.entries[walk.next_entry].clone();
        let next_entry: usize = walk.next_entry + 1;
        let mut outcome = walk.outcome;
        let mut stack = walk.stack;
        let mut visited = walk.visited;
        proof {
            assert(was.entries[0] == path@);
            assert(was.entries.skip(1) =~= text::views(walk.entries@).skip(next_entry as int));
        }
        match stat {
            None => {},
            Some(l) => match l.kind {
                FileKind::Symlink => {},
                FileKind::Other => {
                    push_stat(&l, &path, &mut outcome);
                },
                FileKind::Directory => {
                    push_stat(&l, &path, &mut outcome);
                    match self.mounts.skip_fstype(&path) {
                        Some(fstype) => {
                            push_skip(&path, fstype, &mut outcome);
                        },
                        None => {
                            if enter_dir(&mut visited, l.dev, l.ino) {
                                stack.push(path);
                                proof {
                                    assert(text::views(stack@) =~= was.stack.push(
                                        was.entries[0],
                                    ));
                                }
                            } else {
                                proof {
                                    assert(visited@ =~= was.visited);
                                }
                            }
                        },
                    }
                },
            },
        }
        Walk {
            roots: walk.roots,
            next_root: walk.next_root,
            stack,
            entries: walk.entries,
            next_entry,
            visited,
            outcome,
        }
    }
}

// ---------------------------------------------------------------------------
// Laws
// ---------------------------------------------------------------------------

/// A symlink is neither recorded nor followed, as a root or as an entry.
pub proof fn symlinks_leave_no_trace(s: WalkState, l: Lstat, mount: Option<Seq<char>>)
    requires
        l.kind is Symlink,
    ensures
        s.with_root(l, mount).outcome == s.outcome,
        s.with_root(l, mount).stack == s.stack,
        s.with_entry(Some(l), mount).outcome == s.outcome,
        s.with_entry(Some(l), mount).stack == s.stack,
{
}

/// Under one root a directory inode is descended at most once: an entry goes onto the
/// stack only where its inode was not entered before, and is entered then. What was
/// entered stays entered.
pub proof fn directories_descend_once(s: WalkState, l: Lstat, mount: Option<Seq<char>>)
    ensures
        s.with_entry(Some(l), mount).stack != s.stack ==> {
            &&& l.kind is Directory
            &&& !s.visited.contains((l.dev, l.ino))
            &&& s.with_entry(Some(l), mount).visited.contains((l.dev, l.ino))
        },
        s.visited.subset_of(s.with_entry(Some(l), mount).visited),
{
}

/// No mount is skipped in silence: a directory that the mount table lists is not
/// descended and leaves a notice, whatever was entered before. Nothing else leaves one.
pub proof fn skipped_mounts_are_noticed(s: WalkState, l: Lstat, mount: Option<Seq<char>>)
    ensures
        mount matches Some(fstype) ==> {
            &&& s.with_entry(Some(l), mount).stack == s.stack
            &&& l.kind is Directory ==> s.with_entry(Some(l), mount).outcome == noticed(
                recorded(s.outcome, s.entries[0], l),
                s.entries[0],
                fstype,
            )
            &&& !(l.kind is Directory) ==> s.with_entry(Some(l), mount).outcome.skipped
                == s.outcome.skipped
            &&& s.with_root(l, mount).stack == s.stack
            &&& !(l.kind is Symlink) ==> s.with_root(l, mount).outcome == noticed(
                s.outcome,
                s.roots[0],
                fstype,
            )
        },
        mount is None ==> {
            &&& s.with_entry(Some(l), mount).outcome.skipped == s.outcome.skipped
            &&& s.with_root(l, mount).outcome.skipped == s.outcome.skipped
        },
{
}

/// A pseudo-filesystem root is never asked about: it is not among the paths the walk
/// keeps.
pub proof fn pseudo_roots_are_never_walked(paths: Seq<Seq<char>>, path: Seq<char>)
    ensures
        real_paths(paths).contains(path) <==> paths.contains(path) && !scope::pseudo_fs(path),
    decreases paths.len(),
{
    if paths.len() > 0 {
        let init = paths.drop_last();
        let last = paths.last();
        pseudo_roots_are_never_walked(init, path);
        assert(paths =~= init.push(last));
        if real_paths(paths).contains(path) && !real_paths(init).contains(path) {
            assert(path == last);
            assert(paths[paths.len() - 1] == path);
        }
        if real_paths(init).contains(path) {
            let i = choose|i: int| 0 <= i < real_paths(init).len() && real_paths(init)[i] == path;
            assert(real_paths(paths)[i] == path);
            let j = choose|j: int| 0 <= j < init.len() && init[j] == path;
            assert(paths[j] == path);
        }
        if paths.contains(path) && !init.contains(path) {
            let j = choose|j: int| 0 <= j < paths.len() && paths[j] == path;
            if j < init.len() {
                assert(init[j] == path);
            }
            if !scope::pseudo_fs(path) {
                assert(real_paths(paths)[real_paths(paths).len() - 1] == path);
            }
        }
    }
}

/// Each path is looked at for itself, in order.
pub proof fn real_paths_add_up(a: Seq<Seq<char>>, b: Seq<Seq<char>>)
    ensures
        real_paths(Seq::<Seq<char>>::empty()).len() == 0,
        real_paths(a + b) == real_paths(a) + real_paths(b),
    decreases b.len(),
{
    if b.len() == 0 {
        assert(a + b =~= a);
        assert(real_paths(a) + real_paths(b) =~= real_paths(a));
    } else {
        real_paths_add_up(a, b.drop_last());
        assert((a + b).drop_last() =~= a + b.drop_last());
        assert((a + b).last() == b.last());
        assert(real_paths(a + b) =~= real_paths(a) + real_paths(b));
    }
}

/// What a walk asks for: entries of the open directory before anything else, then the
/// directory that was put on the stack last, then the next root.
pub proof fn entries_before_directories_before_roots(s: WalkState)
    ensures
        s.entries.len() > 0 ==> s.action() == ActionView::StatEntry(s.entries[0]),
        s.entries.len() == 0 && s.stack.len() > 0 ==> s.action() == ActionView::List(
            s.stack[s.stack.len() - 1],
        ),
        s.entries.len() == 0 && s.stack.len() == 0 && s.roots.len() > 0 ==> s.action()
            == ActionView::StatRoot(s.roots[0]),
        s.entries.len() == 0 && s.stack.len() == 0 && s.roots.len() == 0 ==> s.action() is Done,
{
}

/// A root that is there: it is dealt with, and nothing else of the roots or entries changes.
/// One that is no symlink and no skipped mount is recorded as it is. Where it is a directory,
/// it is listed next, and its inode alone counts as entered.
pub proof fn roots_are_recorded_and_opened(s: WalkState, l: Lstat, mount: Option<Seq<char>>)
    requires
        s.roots.len() > 0,
    ensures
        s.with_root(l, mount).roots == s.roots.skip(1),
        s.with_root(l, mount).entries == s.entries,
        !(l.kind is Symlink) && mount is None ==> {
            let t = s.with_root(l, mount);
            &&& t.outcome.stats == s.outcome.stats.push(
                index::StatView {
                    path: s.roots[0],
                    uid: l.uid,
                    gid: l.gid,
                    mode: l.mode,
                    is_dir: l.kind is Directory,
                },
            )
            &&& l.kind is Directory ==> t.stack == seq![s.roots[0]] && forall|id: (u64, u64)|
                #[trigger] t.visited.contains(id) <==> id == (l.dev, l.ino)
            &&& !(l.kind is Directory) ==> t.stack == s.stack && t.visited == s.visited
        },
        l.kind is Symlink || mount is Some ==> s.with_root(l, mount).outcome.stats
            == s.outcome.stats && s.with_root(l, mount).visited == s.visited,
{
}

/// A directory that was listed leaves the stack, and its entries are looked at next, but for
/// pseudo-filesystem roots. Nothing else changes.
pub proof fn listings_are_looked_at_next(s: WalkState, paths: Seq<Seq<char>>)
    ensures
        s.with_listing(Some(paths)).entries == real_paths(paths),
        s.with_listing(None).entries.len() == 0,
        s.with_listing(Some(paths)).stack == s.stack.drop_last(),
        s.with_listing(None).stack == s.stack.drop_last(),
        s.with_listing(Some(paths)).roots == s.roots && s.with_listing(None).roots == s.roots,
        s.with_listing(Some(paths)).visited == s.visited && s.with_listing(None).visited
            == s.visited,
        s.with_listing(Some(paths)).outcome == s.outcome && s.with_listing(None).outcome
            == s.outcome,
{
}

/// An entry: it is dealt with, and no root changes. One that is there and no symlink is
/// recorded as it is. A directory that is no skipped mount and was not entered before is put
/// on the stack and counts as entered.
pub proof fn entries_are_recorded_and_descended(s: WalkState, l: Lstat, mount: Option<Seq<char>>)
    requires
        s.entries.len() > 0,
    ensures
        s.with_entry(None, mount) == (WalkState { entries: s.entries.skip(1), ..s }),
        s.with_entry(Some(l), mount).entries == s.entries.skip(1),
        s.with_entry(Some(l), mount).roots == s.roots,
        l.kind is Symlink ==> s.with_entry(Some(l), mount).outcome.stats == s.outcome.stats,
        !(l.kind is Symlink) ==> s.with_entry(Some(l), mount).outcome.stats
            == s.outcome.stats.push(
            index::StatView {
                path: s.entries[0],
                uid: l.uid,
                gid: l.gid,
                mode: l.mode,
                is_dir: l.kind is Directory,
            },
        ),
        l.kind is Directory && mount is None && !s.visited.contains((l.dev, l.ino)) ==> {
            &&& s.with_entry(Some(l), mount).stack == s.stack.push(s.entries[0])
            &&& s.with_entry(Some(l), mount).visited == s.visited.insert((l.dev, l.ino))
        },
        !(l.kind is Directory) || mount is Some || s.visited.contains((l.dev, l.ino)) ==> {
            &&& s.with_entry(Some(l), mount).stack == s.stack
            &&& s.with_entry(Some(l), mount).visited == s.visited
        },
{
}

/// A walk begins with its roots, but for pseudo-filesystem ones, and with nothing recorded.
pub proof fn walks_begin_with_nothing(roots: Seq<Seq<char>>)
    ensures
        WalkState::starting(roots).roots == real_paths(roots),
        WalkState::starting(roots).stack.len() == 0,
        WalkState::starting(roots).entries.len() == 0,
        WalkState::starting(roots).outcome.stats.len() == 0,
        WalkState::starting(roots).outcome.skipped.len() == 0,
{
}

/// Directories of different device or inode number are told apart.
pub proof fn directory_keys_differ(a: (u64, u64), b: (u64, u64))
    ensures
        dir_key(a.0, a.1) == dir_key(b.0, b.1) <==> a == b,
{
}

} // verus!
