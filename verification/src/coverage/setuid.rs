//! The setuid walk, as a machine that decides and asks.
//!
//! The walk stays on the device of its root and out of virtual filesystems. Whoever
//! drives it looks at [`SetuidWalk::action`] and answers a [`SetuidAction::List`] with
//! [`SetuidWalk::take_listing`] and a [`SetuidAction::Stat`] with
//! [`SetuidWalk::take_entry`], until [`SetuidAction::Done`].

use vstd::prelude::*;

use crate::coverage;
use crate::coverage::scan;
use crate::coverage::scan::LiveSurface;
use crate::coverage::{CoverageError, Provenance, SurfaceClass, SurfaceObject};
use crate::text;

verus! {

broadcast use vstd::string::group_string_axioms;

/// What an entry is, to the setuid walk.
#[derive(Debug, Clone, Copy, PartialEq, Eq, Structural)]
pub enum EntryKind {
    /// A directory.
    Directory,
    /// A regular file.
    Regular,
    /// Anything else, a symlink among them.
    Other,
}

/// What `lstat` says of an entry.
#[derive(Debug, Clone, Copy, PartialEq, Eq, Structural)]
pub struct EntryStat {
    /// What the entry is.
    pub kind: EntryKind,
    /// The device that holds it.
    pub dev: u64,
    /// Raw Unix mode bits.
    pub mode: u32,
}

/// What the walk asks for next.
#[derive(Debug, PartialEq, Eq)]
pub enum SetuidAction {
    /// List this directory.
    List(String),
    /// `lstat` this entry of the directory listed last.
    Stat(String),
    /// Nothing: the walk is over.
    Done,
}

/// The contents of a [`SetuidAction`].
pub enum SetuidActionView {
    /// See [`SetuidAction::List`].
    List(Seq<char>),
    /// See [`SetuidAction::Stat`].
    Stat(Seq<char>),
    /// See [`SetuidAction::Done`].
    Done,
}

impl View for SetuidAction {
    type V = SetuidActionView;

    open spec fn view(&self) -> SetuidActionView {
        match self {
            SetuidAction::List(p) => SetuidActionView::List(p@),
            SetuidAction::Stat(p) => SetuidActionView::Stat(p@),
            SetuidAction::Done => SetuidActionView::Done,
        }
    }
}

/// The state of a setuid walk.
#[verifier::ext_equal]
pub struct SetuidState {
    /// The scan root.
    pub root: Seq<char>,
    /// The device of the root.
    pub dev: u64,
    /// The directories to list, the next one last.
    pub stack: Seq<Seq<char>>,
    /// The entries of the directory listed last that are left.
    pub entries: Seq<Seq<char>>,
    /// The setuid objects found.
    pub found: Seq<coverage::ObjectView>,
}

impl SetuidState {
    /// The state before anything was asked.
    pub open spec fn starting(root: Seq<char>, dev: u64) -> SetuidState {
        SetuidState { root, dev, stack: seq![root], entries: seq![], found: seq![] }
    }

    /// What the walk asks for next.
    pub open spec fn action(self) -> SetuidActionView {
        if self.entries.len() > 0 {
            SetuidActionView::Stat(self.entries[0])
        } else if self.stack.len() > 0 {
            SetuidActionView::List(self.stack.last())
        } else {
            SetuidActionView::Done
        }
    }

    /// The state after a directory was listed, or could not be, with the reason. A
    /// subtree that cannot be read has no entries; a scan root that cannot be opened
    /// ends the walk with an error.
    pub open spec fn with_listing(self, listing: Result<Seq<Seq<char>>, Seq<char>>) -> Result<
        SetuidState,
        coverage::CoverageErrorView,
    > {
        let next = SetuidState { stack: self.stack.drop_last(), ..self };
        match listing {
            Ok(paths) => Ok(SetuidState { entries: paths, ..next }),
            Err(reason) => if self.stack.last() == self.root {
                Err(coverage::CoverageErrorView::Scan("cannot open scan root: "@ + reason))
            } else {
                Ok(SetuidState { entries: seq![], ..next })
            },
        }
    }

    /// The state after an entry was stat'd. An entry on another device, or one that
    /// cannot be stat'd, is passed over; a directory is descended unless it is virtual;
    /// a regular file with a setuid or setgid bit is found.
    pub open spec fn with_entry(self, stat: Option<EntryStat>) -> SetuidState {
        let path = self.entries[0];
        let next = SetuidState { entries: self.entries.skip(1), ..self };
        match stat {
            None => next,
            Some(s) => if s.dev != self.dev {
                next
            } else if s.kind is Directory {
                if scan::virtual_dir(self.root, path) {
                    next
                } else {
                    SetuidState { stack: self.stack.push(path), ..next }
                }
            } else if s.kind is Regular && scan::setuid_mode(s.mode) {
                SetuidState {
                    found: self.found.push(
                        scan::plain_object(SurfaceClass::Setuid, path, scan::mode_text(s.mode)),
                    ),
                    ..next
                }
            } else {
                next
            },
        }
    }
}

/// The state of one setuid walk.
pub struct SetuidWalk {
    root: String,
    dev: u64,
    stack: Vec<String>,
    entries: Vec<String>,
    next_entry: usize,
    found: Vec<SurfaceObject>,
}

impl View for SetuidWalk {
    type V = SetuidState;

    closed spec fn view(&self) -> SetuidState {
        SetuidState {
            root: self.root@,
            dev: self.dev,
            stack: text::views(self.stack@),
            entries: text::views(self.entries@).skip(self.next_entry as int),
            found: coverage::object_views(self.found@),
        }
    }
}

/// The listing, as paths, or the reason why there is none.
pub open spec fn listing_view(l: Result<Vec<String>, String>) -> Result<
    Seq<Seq<char>>,
    Seq<char>,
> {
    match l {
        Ok(v) => Ok(text::views(v@)),
        Err(reason) => Err(reason@),
    }
}

/// The contents of what a step of the walk returns.
pub open spec fn step_view(r: Result<SetuidWalk, CoverageError>) -> Result<
    SetuidState,
    coverage::CoverageErrorView,
> {
    match r {
        Ok(walk) => Ok(walk@),
        Err(e) => Err(e@),
    }
}

impl LiveSurface {
    /// Start the setuid walk, from the device of the scan root, or from why the root
    /// cannot be stat'd, which is an error.
    pub fn scan_setuid(&self, root_dev: Result<u64, String>) -> (r: Result<
        SetuidWalk,
        CoverageError,
    >)
        ensures
            match root_dev {
                Ok(dev) => r is Ok && r->Ok_0@ == SetuidState::starting(self.root@, dev),
                Err(e) => r is Err && r->Err_0@ == coverage::CoverageErrorView::Scan(
                    "cannot stat scan root: "@ + e@,
                ),
            },
    {
        match root_dev {
            Ok(dev) => {
                let mut stack: Vec<String> = Vec::new();
                stack.push(self.root.clone());
                let walk = SetuidWalk {
                    root: self.root.clone(),
                    dev,
                    stack,
                    entries: Vec::new(),
                    next_entry: 0,
                    found: Vec::new(),
                };
                proof {
                    assert(walk@.stack =~= seq![self.root@]);
                    assert(walk@.entries =~= seq![]);
                    assert(walk@.found =~= seq![]);
                }
                Ok(walk)
            },
            Err(e) => Err(CoverageError::Scan(text::join2("cannot stat scan root: ", &e))),
        }
    }
}

impl SetuidWalk {
    #[verifier::type_invariant]
    spec fn well_formed(self) -> bool {
        self.next_entry <= self.entries@.len()
    }

    /// What the walk asks for next.
    pub fn action(&self) -> (r: SetuidAction)
        ensures
            r@ == self@.action(),
    {
        proof {
            use_type_invariant(self);
        }
        if self.next_entry < self.entries.len() {
            SetuidAction::Stat(self.entries[self.next_entry].clone())
        } else if self.stack.len() > 0 {
            SetuidAction::List(self.stack[self.stack.len() - 1].clone())
        } else {
            SetuidAction::Done
        }
    }

    /// Take the listing of the directory that was asked for: the paths of its entries,
    /// or the reason why it could not be read. A permission-denied subtree is skipped; a
    /// scan root that cannot be opened is an error.
    pub fn take_listing(self, listing: Result<Vec<String>, String>) -> (r: Result<
        SetuidWalk,
        CoverageError,
    >)
        requires
            self@.action() is List,
        ensures
            step_view(r) == self@.with_listing(listing_view(listing)),
    {
        proof {
            use_type_invariant(&self);
        }
        let ghost was = self@;
        let ghost answer = listing_view(listing);
        let mut stack = self.stack;
        let entries = match listing {
            Ok(paths) => paths,
            Err(reason) => {
                if text::same(&stack[stack.len() - 1], &self.root) {
                    return Err(
                        CoverageError::Scan(text::join2("cannot open scan root: ", &reason)),
                    );
                }
                Vec::new()
            },
        };
        let _ = stack.pop();
        let r = SetuidWalk {
            root: self.root,
            dev: self.dev,
            stack,
            entries,
            next_entry: 0,
            found: self.found,
        };
        proof {
            assert(r@.stack =~= was.stack.drop_last());
            assert(r@.entries =~= match answer {
                Ok(paths) => paths,
                Err(_) => seq![],
            });
        }
        Ok(r)
    }

    /// Take the answer for the entry that was asked for, or nothing where it could not
    /// be stat'd.
    pub fn take_entry(self, stat: Option<EntryStat>) -> (r: SetuidWalk)
        requires
            self@.action() is Stat,
        ensures
            r@ == self@.with_entry(stat),
    {
        proof {
            use_type_invariant(&self);
        }
        let ghost was = self@;
        let n = self.entries.len();
        let path = self.entries[self.next_entry].clone();
        let next_entry: usize = self.next_entry + 1;
        let mut stack = self.stack;
        let mut found = self.found;
        proof {
            assert(was.entries[0] == path@);
            assert(was.entries.skip(1) =~= text::views(self.entries@).skip(next_entry as int));
        }
        match stat {
            None => {},
            Some(s) => {
                if s.dev == self.dev {
                    match s.kind {
                        EntryKind::Directory => {
                            if !scan::is_virtual_dir(&self.root, &path) {
                                stack.push(path);
                                proof {
                                    assert(text::views(stack@) =~= was.stack.push(
                                        was.entries[0],
                                    ));
                                }
                            }
                        },
                        EntryKind::Regular => {
                            if scan::is_setuid_mode(s.mode) {
                                let object = SurfaceObject {
                                    class: SurfaceClass::Setuid,
                                    key: path,
                                    provenance: Provenance::Orphan,
                                    detail: scan::mode_detail(Some(s.mode)),
                                };
                                let ghost one = object@;
                                found.push(object);
                                proof {
                                    assert(coverage::object_views(found@) =~= was.found.push(
                                        one,
                                    ));
                                }
                            }
                        },
                        EntryKind::Other => {},
                    }
                }
            },
        }
        SetuidWalk { root: self.root, dev: self.dev, stack, entries: self.entries, next_entry, found }
    }

    /// The setuid objects of a walk that is over.
    pub fn finish(self) -> (r: Vec<SurfaceObject>)
        requires
            self@.action() is Done,
        ensures
            coverage::object_views(r@) == self@.found,
    {
        self.found
    }
}

// ---------------------------------------------------------------------------
// Laws
// ---------------------------------------------------------------------------

/// A directory that cannot be read ends the walk if and only if it is the scan root; one
/// below it is passed over, and what was found stays.
pub proof fn only_the_root_must_open(s: SetuidState, reason: Seq<char>)
    requires
        s.action() is List,
    ensures
        s.with_listing(Err(reason)) is Err <==> s.action() == SetuidActionView::List(s.root),
        s.with_listing(Err(reason)) matches Ok(t) ==> t == (SetuidState {
            stack: s.stack.drop_last(),
            ..s
        }),
{
}

/// The walk never leaves the device of its root: an entry elsewhere is neither found nor
/// descended.
pub proof fn stays_on_device(s: SetuidState, stat: EntryStat)
    requires
        stat.dev != s.dev,
    ensures
        s.with_entry(Some(stat)).found == s.found,
        s.with_entry(Some(stat)).stack == s.stack,
{
}

/// The walk never lists a virtual filesystem root, nor anything below one: such a
/// directory is not put on the stack.
pub proof fn skips_virtual_directories(s: SetuidState, stat: Option<EntryStat>)
    requires
        scan::virtual_dir(s.root, s.entries[0]),
    ensures
        s.with_entry(stat).stack == s.stack,
{
}

/// A filesystem, as a setuid walk sees it.
pub struct Disk {
    /// What `lstat` says of each path, where it says anything.
    pub stats: spec_fn(Seq<char>) -> Option<EntryStat>,
    /// The paths in each directory, or the reason why it cannot be read.
    pub listings: spec_fn(Seq<char>) -> Result<Seq<Seq<char>>, Seq<char>>,
}

impl Disk {
    /// The walk after the answer to what it asks for.
    pub open spec fn step(self, s: SetuidState) -> Result<
        SetuidState,
        coverage::CoverageErrorView,
    > {
        match s.action() {
            SetuidActionView::List(dir) => s.with_listing((self.listings)(dir)),
            SetuidActionView::Stat(path) => Ok(s.with_entry((self.stats)(path))),
            SetuidActionView::Done => Ok(s),
        }
    }

    /// The walk after `n` answers, or the error that it met among them.
    pub open spec fn after(self, s: SetuidState, n: nat) -> Result<
        SetuidState,
        coverage::CoverageErrorView,
    >
        decreases n,
    {
        if n == 0 {
            Ok(s)
        } else {
            match self.step(s) {
                Ok(next) => self.after(next, (n - 1) as nat),
                Err(e) => Err(e),
            }
        }
    }

    /// Whether `path` is listed in `dir`.
    pub open spec fn lists(self, dir: Seq<char>, path: Seq<char>) -> bool {
        (self.listings)(dir) matches Ok(paths) && paths.contains(path)
    }

    /// Whether a walk from `root` on this device goes into `path`: a directory there, and
    /// no virtual one.
    pub open spec fn descends(self, root: Seq<char>, dev: u64, path: Seq<char>) -> bool {
        &&& (self.stats)(path) matches Some(st) && st.dev == dev && st.kind is Directory
        &&& !scan::virtual_dir(root, path)
    }

    /// Whether `path` is a setuid or setgid file on this device.
    pub open spec fn setuid_at(self, dev: u64, path: Seq<char>) -> bool {
        (self.stats)(path) matches Some(st) && st.dev == dev && st.kind is Regular
            && scan::setuid_mode(st.mode)
    }

    /// The surface object of a setuid file.
    pub open spec fn object_at(self, path: Seq<char>) -> coverage::ObjectView {
        scan::plain_object(
            SurfaceClass::Setuid,
            path,
            scan::mode_text((self.stats)(path)->0.mode),
        )
    }

    /// Whether `dirs` are the directories of a walk from `root`: the root, each directory
    /// that is listed in one of them and gone into, and no other.
    pub open spec fn reached(self, root: Seq<char>, dev: u64, dirs: Set<Seq<char>>) -> bool {
        &&& dirs.contains(root)
        &&& forall|dir: Seq<char>, path: Seq<char>|
            dirs.contains(dir) && #[trigger] self.lists(dir, path) && self.descends(
                root,
                dev,
                path,
            ) ==> dirs.contains(path)
        &&& self.grounded(root, dev, dirs)
    }

    /// Whether each of the directories is the root, or is listed in one of them and gone
    /// into.
    pub open spec fn grounded(self, root: Seq<char>, dev: u64, dirs: Set<Seq<char>>) -> bool {
        forall|dir: Seq<char>| #[trigger]
            dirs.contains(dir) ==> dir == root || (self.descends(root, dev, dir)
                && self.listed_in(dirs, dir))
    }

    /// Whether `path` is listed in one of the directories.
    pub open spec fn listed_in(self, dirs: Set<Seq<char>>, path: Seq<char>) -> bool {
        exists|dir: Seq<char>| dirs.contains(dir) && #[trigger] self.lists(dir, path)
    }

    /// Whether the directories hold a setuid file with this object.
    pub open spec fn holds(
        self,
        dev: u64,
        dirs: Set<Seq<char>>,
        object: coverage::ObjectView,
    ) -> bool {
        exists|path: Seq<char>|
            #![trigger self.setuid_at(dev, path)]
            self.listed_in(dirs, path) && self.setuid_at(dev, path) && object == self.object_at(
                path,
            )
    }

    /// Whether an entry that was stat'd has its due.
    spec fn dealt_with(self, s: SetuidState, dirs: Set<Seq<char>>, path: Seq<char>) -> bool {
        &&& self.descends(s.root, s.dev, path) ==> dirs.contains(path)
        &&& self.setuid_at(s.dev, path) ==> s.found.contains(self.object_at(path))
    }

    /// What holds at each point of a walk, with `dirs` the directories met so far.
    spec fn on_course(self, s: SetuidState, dirs: Set<Seq<char>>) -> bool {
        &&& dirs.contains(s.root)
        &&& self.grounded(s.root, s.dev, dirs)
        &&& forall|dir: Seq<char>| #[trigger] s.stack.contains(dir) ==> dirs.contains(dir)
        &&& forall|path: Seq<char>| #[trigger]
            s.entries.contains(path) ==> self.listed_in(dirs, path)
        &&& forall|o: coverage::ObjectView| #[trigger]
            s.found.contains(o) ==> self.holds(s.dev, dirs, o)
        &&& forall|dir: Seq<char>, path: Seq<char>|
            dirs.contains(dir) && !s.stack.contains(dir) && #[trigger] self.lists(dir, path)
                ==> s.entries.contains(path) || self.dealt_with(s, dirs, path)
    }
}

/// What a list holds with one more item: what it held, and that.
proof fn lemma_push_contains<A>(list: Seq<A>, item: A)
    ensures
        forall|x: A| #[trigger] list.push(item).contains(x) <==> list.contains(x) || x == item,
{
    assert forall|x: A| #[trigger] list.push(item).contains(x) <==> list.contains(x) || x
        == item by {
        assert(list.push(item)[list.len() as int] == item);
        if list.contains(x) {
            let i = choose|i: int| 0 <= i < list.len() && list[i] == x;
            assert(list.push(item)[i] == x);
        }
        if list.push(item).contains(x) && x != item {
            let i = choose|i: int| 0 <= i < list.len() + 1 && list.push(item)[i] == x;
            assert(list[i] == x);
        }
    }
}

/// More directories hold no less.
proof fn lemma_more_dirs(disk: Disk, dev: u64, dirs: Set<Seq<char>>, dir: Seq<char>)
    ensures
        forall|path: Seq<char>| #[trigger]
            disk.listed_in(dirs, path) ==> disk.listed_in(dirs.insert(dir), path),
        forall|o: coverage::ObjectView| #[trigger]
            disk.holds(dev, dirs, o) ==> disk.holds(dev, dirs.insert(dir), o),
{
    assert forall|path: Seq<char>| #[trigger] disk.listed_in(dirs, path) implies disk.listed_in(
        dirs.insert(dir),
        path,
    ) by {
        let d = choose|d: Seq<char>| dirs.contains(d) && #[trigger] disk.lists(d, path);
        assert(dirs.insert(dir).contains(d));
    }
    assert forall|o: coverage::ObjectView| #[trigger] disk.holds(dev, dirs, o) implies disk.holds(
        dev,
        dirs.insert(dir),
        o,
    ) by {
        let path = choose|path: Seq<char>|
            #![trigger disk.setuid_at(dev, path)]
            disk.listed_in(dirs, path) && disk.setuid_at(dev, path) && o == disk.object_at(path);
        assert(disk.listed_in(dirs.insert(dir), path));
    }
}

/// One answer keeps a walk on course.
proof fn lemma_on_course(disk: Disk, s: SetuidState, dirs: Set<Seq<char>>) -> (more: Set<
    Seq<char>,
>)
    requires
        disk.on_course(s, dirs),
    ensures
        disk.step(s) matches Ok(next) ==> disk.on_course(next, more) && next.root == s.root
            && next.dev == s.dev,
{
    match s.action() {
        SetuidActionView::List(dir) => {
            if let Ok(next) = disk.step(s) {
                assert(s.stack.contains(dir));
                assert forall|d: Seq<char>| #[trigger]
                    next.stack.contains(d) implies s.stack.contains(d) by {
                    let i = choose|i: int| 0 <= i < next.stack.len() && next.stack[i] == d;
                    assert(s.stack[i] == d);
                }
                assert forall|path: Seq<char>| #[trigger]
                    next.entries.contains(path) implies disk.listed_in(dirs, path) by {
                    assert(disk.lists(dir, path));
                }
                assert forall|d: Seq<char>, path: Seq<char>|
                    dirs.contains(d) && !next.stack.contains(d) && #[trigger] disk.lists(
                        d,
                        path,
                    ) implies next.entries.contains(path) || disk.dealt_with(next, dirs, path) by {
                    if d != dir && s.stack.contains(d) {
                        let i = choose|i: int| 0 <= i < s.stack.len() && s.stack[i] == d;
                        assert(next.stack[i] == d);
                    }
                    if !s.stack.contains(d) {
                        assert(disk.dealt_with(s, dirs, path));
                    }
                }
            }
            dirs
        },
        SetuidActionView::Stat(path) => {
            let next = s.with_entry((disk.stats)(path));
            let more = if disk.descends(s.root, s.dev, path) {
                dirs.insert(path)
            } else {
                dirs
            };
            assert(s.entries.contains(path));
            lemma_push_contains(s.stack, path);
            lemma_push_contains(s.found, disk.object_at(path));
            lemma_more_dirs(disk, s.dev, dirs, path);
            assert(disk.listed_in(dirs, path));
            assert forall|e: Seq<char>| #[trigger]
                next.entries.contains(e) implies s.entries.contains(e) by {
                let i = choose|i: int| 0 <= i < next.entries.len() && next.entries[i] == e;
                assert(s.entries[i + 1] == e);
            }
            assert(disk.dealt_with(next, more, path));
            if disk.setuid_at(s.dev, path) {
                assert(disk.holds(s.dev, more, disk.object_at(path)));
            }
            assert forall|d: Seq<char>, e: Seq<char>|
                more.contains(d) && !next.stack.contains(d) && #[trigger] disk.lists(
                    d,
                    e,
                ) implies next.entries.contains(e) || disk.dealt_with(next, more, e) by {
                if e != path {
                    if s.entries.contains(e) {
                        let i = choose|i: int| 0 <= i < s.entries.len() && s.entries[i] == e;
                        assert(next.entries[i - 1] == e);
                    } else {
                        assert(disk.dealt_with(s, dirs, e));
                    }
                }
            }
            more
        },
        SetuidActionView::Done => dirs,
    }
}

/// However many answers later, a walk is on course.
proof fn lemma_stays_on_course(disk: Disk, s: SetuidState, dirs: Set<Seq<char>>, n: nat) -> (more:
    Set<Seq<char>>)
    requires
        disk.on_course(s, dirs),
    ensures
        disk.after(s, n) matches Ok(t) ==> disk.on_course(t, more) && t.root == s.root && t.dev
            == s.dev,
    decreases n,
{
    if n == 0 {
        dirs
    } else {
        let more = lemma_on_course(disk, s, dirs);
        match disk.step(s) {
            Ok(next) => lemma_stays_on_course(disk, next, more, (n - 1) as nat),
            Err(_) => more,
        }
    }
}

/// A walk that is over has found the setuid and setgid files of the directories it
/// reaches, all of them and nothing else. It reaches the scan root, and every directory
/// listed in one it reaches that is on the device of the root and not virtual.
pub proof fn finds_every_setuid_file(disk: Disk, root: Seq<char>, dev: u64, n: nat)
    ensures
        disk.after(SetuidState::starting(root, dev), n) matches Ok(s) ==> s.action() is Done
            ==> exists|dirs: Set<Seq<char>>| #[trigger]
            disk.reached(root, dev, dirs) && forall|o: coverage::ObjectView| #[trigger]
                s.found.contains(o) <==> disk.holds(dev, dirs, o),
{
    let start = SetuidState::starting(root, dev);
    let first = Set::<Seq<char>>::empty().insert(root);
    assert(start.stack[0] == root);
    assert(disk.on_course(start, first));
    let dirs = lemma_stays_on_course(disk, start, first, n);
    if let Ok(s) = disk.after(start, n) {
        if s.action() is Done {
            assert forall|dir: Seq<char>, path: Seq<char>|
                dirs.contains(dir) && #[trigger] disk.lists(dir, path) && disk.descends(
                    root,
                    dev,
                    path,
                ) implies dirs.contains(path) by {
                assert(disk.dealt_with(s, dirs, path));
            }
            assert(disk.reached(root, dev, dirs));
            assert forall|o: coverage::ObjectView| #[trigger]
                s.found.contains(o) <==> disk.holds(dev, dirs, o) by {
                if disk.holds(dev, dirs, o) {
                    let path = choose|path: Seq<char>|
                        #![trigger disk.setuid_at(dev, path)]
                        disk.listed_in(dirs, path) && disk.setuid_at(dev, path) && o
                            == disk.object_at(path);
                    let dir = choose|dir: Seq<char>|
                        dirs.contains(dir) && #[trigger] disk.lists(dir, path);
                    assert(disk.dealt_with(s, dirs, path));
                }
            }
        }
    }
}

/// A walk fails with the reason why its root cannot be opened.
proof fn lemma_failure(disk: Disk, s: SetuidState, n: nat)
    ensures
        disk.after(s, n) matches Err(e) ==> (disk.listings)(s.root) is Err && e
            == coverage::CoverageErrorView::Scan(
            "cannot open scan root: "@ + (disk.listings)(s.root)->Err_0,
        ),
    decreases n,
{
    if n > 0 {
        if let Ok(next) = disk.step(s) {
            lemma_failure(disk, next, (n - 1) as nat);
        }
    }
}

/// A walk fails if and only if its scan root cannot be opened, and at the first answer. An
/// unreadable directory below the root never fails it.
pub proof fn fails_on_the_root_alone(disk: Disk, root: Seq<char>, dev: u64, n: nat)
    requires
        n > 0,
    ensures
        match (disk.listings)(root) {
            Ok(_) => disk.after(SetuidState::starting(root, dev), n) is Ok,
            Err(reason) => disk.after(SetuidState::starting(root, dev), n) == Err::<
                SetuidState,
                coverage::CoverageErrorView,
            >(coverage::CoverageErrorView::Scan("cannot open scan root: "@ + reason)),
        },
{
    let start = SetuidState::starting(root, dev);
    lemma_failure(disk, start, n);
    assert(start.action() == SetuidActionView::List(root));
}

/// One entry: it is dealt with, and what is known of the walk else stays. On the device of
/// the root, a directory that is not virtual is listed later, and a regular file whose mode
/// has the setuid or the setgid bit is found, under its path and with its mode.
pub proof fn one_entry_is_dealt_with(s: SetuidState, stat: EntryStat)
    requires
        s.entries.len() > 0,
    ensures
        s.with_entry(None) == (SetuidState { entries: s.entries.skip(1), ..s }),
        s.with_entry(Some(stat)).entries == s.entries.skip(1),
        s.with_entry(Some(stat)).root == s.root,
        s.with_entry(Some(stat)).dev == s.dev,
        ({
            let t = s.with_entry(Some(stat));
            let into = stat.dev == s.dev && stat.kind is Directory && !scan::virtual_dir(
                s.root,
                s.entries[0],
            );
            let hit = stat.dev == s.dev && stat.kind is Regular && (stat.mode & 0o4000 != 0
                || stat.mode & 0o2000 != 0);
            &&& t.stack == (if into {
                s.stack.push(s.entries[0])
            } else {
                s.stack
            })
            &&& t.found == (if hit {
                s.found.push(
                    coverage::ObjectView {
                        class: SurfaceClass::Setuid,
                        key: s.entries[0],
                        provenance: coverage::ProvenanceView::Orphan,
                        detail: "mode "@ + crate::text::octal4(stat.mode as nat),
                    },
                )
            } else {
                s.found
            })
        }),
{
    scan::modes_that_elevate(stat.mode);
}

/// What the walk asks for: entries before directories, the directory that was put on the
/// stack last before the others. It begins with its root alone, and a listing is looked at
/// whole.
pub proof fn entries_before_directories(
    s: SetuidState,
    root: Seq<char>,
    dev: u64,
    paths: Seq<Seq<char>>,
    reason: Seq<char>,
)
    ensures
        s.entries.len() > 0 ==> s.action() == SetuidActionView::Stat(s.entries[0]),
        s.entries.len() == 0 && s.stack.len() > 0 ==> s.action() == SetuidActionView::List(
            s.stack[s.stack.len() - 1],
        ),
        s.entries.len() == 0 && s.stack.len() == 0 ==> s.action() is Done,
        SetuidState::starting(root, dev).stack == seq![root],
        SetuidState::starting(root, dev).entries.len() == 0,
        SetuidState::starting(root, dev).found.len() == 0,
        SetuidState::starting(root, dev).root == root && SetuidState::starting(root, dev).dev
            == dev,
        s.with_listing(Ok(paths)) == Ok::<SetuidState, coverage::CoverageErrorView>(
            SetuidState { stack: s.stack.drop_last(), entries: paths, ..s },
        ),
        s.stack.len() > 0 && s.stack.last() == s.root ==> s.with_listing(Err(reason)) == Err::<
            SetuidState,
            coverage::CoverageErrorView,
        >(coverage::CoverageErrorView::Scan("cannot open scan root: "@ + reason)),
{
}

} // verus!
