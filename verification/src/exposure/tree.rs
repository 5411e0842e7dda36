//! Whole walks: what the walk of a filesystem comes to.
//!
//! A [`Tree`] is a filesystem as a walk sees it. [`LiveWalker::walked`] is what a walk
//! that is answered from it ends with, and the laws say what that is: that it ends at
//! all, what it records, what it notices, and when it fails.

use vstd::prelude::*;

use crate::exposure::index;
use crate::exposure::scope;
use crate::exposure::walk;
use crate::exposure::walk::{ActionView, LiveWalker, Lstat, WalkState};
use crate::exposure::ErrorView;
use crate::text;

verus! {

// ---------------------------------------------------------------------------
// Paths
// ---------------------------------------------------------------------------

/// The path of a directory with the slash that stands before its entries.
pub open spec fn with_slash(dir: Seq<char>) -> Seq<char> {
    if dir.len() > 0 && dir.last() == '/' {
        dir
    } else {
        dir.push('/')
    }
}

/// Whether `path` lies below `dir`.
pub open spec fn below(dir: Seq<char>, path: Seq<char>) -> bool {
    with_slash(dir).len() < path.len() && text::starts_with(path, with_slash(dir))
}

/// Whether `path` is `dir` and one name below it.
pub open spec fn entry_of(dir: Seq<char>, path: Seq<char>) -> bool {
    below(dir, path) && !path.skip(with_slash(dir).len() as int).contains('/')
}

/// Whether `path` is `root` or is spelled, below it, as a walk spells its paths.
pub open spec fn in_root(root: Seq<char>, path: Seq<char>) -> bool {
    path == root || (below(root, path) && path.last() != '/')
}

/// A path above an entry is the directory that holds it, or above that.
proof fn lemma_above_entry(root: Seq<char>, dir: Seq<char>, path: Seq<char>, a: Seq<char>)
    requires
        in_root(root, dir),
        entry_of(dir, path),
        in_root(root, a),
        below(a, path),
    ensures
        a == dir || below(a, dir),
{
    let d = with_slash(dir);
    let b = with_slash(a);
    let rest = path.skip(d.len() as int);
    assert(path.take(d.len() as int) == d);
    assert(path.take(b.len() as int) == b);
    assert(b.last() == '/');
    assert(path[b.len() - 1] == b[b.len() - 1]);
    if b.len() > d.len() {
        assert(rest[b.len() - 1 - d.len()] == '/');
        assert(rest.contains('/'));
    }
    assert(forall|i: int| 0 <= i < b.len() ==> b[i] == path[i]);
    assert(forall|i: int| 0 <= i < d.len() ==> d[i] == path[i]);
    if b.len() == d.len() {
        assert(b =~= d);
        if a.len() == dir.len() {
            assert(forall|i: int| 0 <= i < a.len() ==> a[i] == b[i] && dir[i] == d[i]);
            assert(a =~= dir);
        } else {
            // One of the two ends in a slash, so it is the root, and the other is shorter
            // than what lies below it.
            assert(a.len() < dir.len() ==> dir == root);
            assert(dir.len() < a.len() ==> a == root);
        }
    } else {
        if dir.last() == '/' && dir.len() > 0 {
            assert(dir == root);
            assert(a.len() < root.len());
        }
        assert(d =~= dir.push('/'));
        if b.len() == dir.len() {
            assert(dir[b.len() - 1] == d[b.len() - 1]);
            assert(dir.last() == '/');
        }
        assert(dir.take(b.len() as int) =~= b);
    }
}

/// An entry is spelled as a walk spells its paths.
proof fn lemma_entry_in_root(root: Seq<char>, dir: Seq<char>, path: Seq<char>)
    requires
        in_root(root, dir),
        entry_of(dir, path),
    ensures
        in_root(root, path),
{
    let d = with_slash(dir);
    let rest = path.skip(d.len() as int);
    assert(rest[rest.len() - 1] == path.last());
    assert(path.take(d.len() as int) == d);
    if dir != root {
        let r = with_slash(root);
        assert(dir.take(r.len() as int) == r);
        assert forall|i: int| 0 <= i < r.len() implies path[i] == r[i] by {
            assert(r[i] == dir[i]);
            assert(d[i] == path[i]);
        }
        assert(path.take(r.len() as int) =~= r);
    }
}

// ---------------------------------------------------------------------------
// Walks of a tree
// ---------------------------------------------------------------------------

/// A filesystem, as a walk sees it.
pub struct Tree {
    /// What `lstat` says of each path that exists: the inode, or why there is no telling.
    pub inodes: Map<Seq<char>, Result<Lstat, Seq<char>>>,
    /// The paths in each directory that can be read.
    pub listings: Map<Seq<char>, Seq<Seq<char>>>,
}

impl Tree {
    /// The inode at `path`, where it can be stat'd.
    pub open spec fn stat(self, path: Seq<char>) -> Option<Lstat> {
        if self.inodes.contains_key(path) {
            match self.inodes[path] {
                Ok(l) => Some(l),
                Err(_) => None,
            }
        } else {
            None
        }
    }

    /// The paths in `dir`, where it can be read.
    pub open spec fn listing(self, dir: Seq<char>) -> Option<Seq<Seq<char>>> {
        if self.listings.contains_key(dir) {
            Some(self.listings[dir])
        } else {
            None
        }
    }

    /// Whether each listing holds entries of its directory.
    pub open spec fn well_named(self) -> bool {
        forall|dir: Seq<char>, i: int|
            self.listings.contains_key(dir) && 0 <= i < self.listings[dir].len() ==> entry_of(
                dir,
                #[trigger] self.listings[dir][i],
            )
    }
}

/// Whether a walk that came this far is over.
pub open spec fn ended(r: Result<WalkState, ErrorView>) -> bool {
    r matches Ok(s) ==> s.action() is Done
}

impl LiveWalker {
    /// The walk after the answer of `tree` to what it asks for.
    pub open spec fn step(&self, tree: Tree, s: WalkState) -> Result<WalkState, ErrorView> {
        match s.action() {
            ActionView::StatRoot(root) => if tree.inodes.contains_key(root) {
                match tree.inodes[root] {
                    Ok(l) => Ok(s.with_root(l, self.mounts.fstype_at(root))),
                    Err(reason) => Err(ErrorView::Walk { root, reason }),
                }
            } else {
                Ok(WalkState { roots: s.roots.skip(1), ..s })
            },
            ActionView::List(dir) => Ok(s.with_listing(tree.listing(dir))),
            ActionView::StatEntry(path) => Ok(
                s.with_entry(tree.stat(path), self.mounts.fstype_at(path)),
            ),
            ActionView::Done => Ok(s),
        }
    }

    /// The walk after `n` answers of `tree`, or the error that it met among them.
    pub open spec fn after(&self, tree: Tree, s: WalkState, n: nat) -> Result<
        WalkState,
        ErrorView,
    >
        decreases n,
    {
        if n == 0 {
            Ok(s)
        } else {
            match self.step(tree, s) {
                Ok(next) => self.after(tree, next, (n - 1) as nat),
                Err(e) => Err(e),
            }
        }
    }

    /// What the walk of `roots` ends with, where `tree` answers.
    pub open spec fn walked(&self, tree: Tree, roots: Seq<Seq<char>>) -> Result<
        index::WalkView,
        ErrorView,
    > {
        let start = WalkState::starting(roots);
        let n = choose|n: nat| ended(#[trigger] self.after(tree, start, n));
        match self.after(tree, start, n) {
            Ok(s) => Ok(s.outcome),
            Err(e) => Err(e),
        }
    }
}

// ---------------------------------------------------------------------------
// Every walk ends
// ---------------------------------------------------------------------------

/// All pairs of device and inode number.
spec fn all_ids() -> Set<(u64, u64)> {
    Set::<u128>::full().map(
        |k: u128| ((k / 0x1_0000_0000_0000_0000) as u64, (k % 0x1_0000_0000_0000_0000) as u64),
    )
}

/// There are finitely many of them.
proof fn lemma_all_ids()
    ensures
        all_ids().finite(),
        forall|id: (u64, u64)| #[trigger] all_ids().contains(id),
{
    broadcast use vstd::set_lib::full_set_properties;

    let f = |k: u128|
        ((k / 0x1_0000_0000_0000_0000) as u64, (k % 0x1_0000_0000_0000_0000) as u64);
    Set::<u128>::full().lemma_map_finite(f);
    assert forall|id: (u64, u64)| #[trigger] all_ids().contains(id) by {
        let k = walk::dir_key(id.0, id.1);
        assert(Set::<u128>::full().contains(k));
        assert(k / 0x1_0000_0000_0000_0000 == id.0);
        assert(k % 0x1_0000_0000_0000_0000 == id.1);
        assert(f(k) == id);
    }
}

/// A walk that is over stays as it is.
proof fn lemma_done_stays(w: &LiveWalker, tree: Tree, s: WalkState, n: nat)
    requires
        s.action() is Done,
    ensures
        w.after(tree, s, n) == Ok::<WalkState, ErrorView>(s),
    decreases n,
{
    if n > 0 {
        lemma_done_stays(w, tree, s, (n - 1) as nat);
    }
}

/// A walk ends in one way.
proof fn lemma_one_end(w: &LiveWalker, tree: Tree, s: WalkState, n: nat, m: nat)
    requires
        ended(w.after(tree, s, n)),
        ended(w.after(tree, s, m)),
    ensures
        w.after(tree, s, n) == w.after(tree, s, m),
    decreases n + m,
{
    if s.action() is Done {
        lemma_done_stays(w, tree, s, n);
        lemma_done_stays(w, tree, s, m);
    } else {
        assert(n > 0 && m > 0);
        if let Ok(next) = w.step(tree, s) {
            lemma_one_end(w, tree, next, (n - 1) as nat, (m - 1) as nat);
        }
    }
}

/// How many answers a walk takes from a state on.
proof fn lemma_ends(w: &LiveWalker, tree: Tree, s: WalkState) -> (n: nat)
    ensures
        ended(w.after(tree, s, n)),
    decreases
        s.roots.len(),
        all_ids().difference(s.visited).len(),
        s.stack.len(),
        s.entries.len(),
{
    if s.action() is Done {
        assert(w.after(tree, s, 0) == Ok::<WalkState, ErrorView>(s));
        0
    } else {
        match w.step(tree, s) {
            Err(e) => {
                assert(w.after(tree, s, 1) == Err::<WalkState, ErrorView>(e));
                1
            },
            Ok(next) => {
                if next.visited != s.visited && s.action() is StatEntry {
                    // A directory that was not entered before: one less is left.
                    lemma_all_ids();
                    let l = tree.stat(s.entries[0])->0;
                    let left = all_ids().difference(s.visited);
                    assert(left.contains((l.dev, l.ino)));
                    assert(all_ids().difference(next.visited) =~= left.remove((l.dev, l.ino)));
                }
                let n = lemma_ends(w, tree, next);
                n + 1
            },
        }
    }
}

/// A walk ends, whatever the filesystem holds: no bind mount, nor any other cycle of
/// directories, keeps it going. However many answers it is driven by, it ends with
/// [`LiveWalker::walked`].
pub proof fn every_walk_ends(w: &LiveWalker, tree: Tree, roots: Seq<Seq<char>>)
    ensures
        exists|n: nat| ended(#[trigger] w.after(tree, WalkState::starting(roots), n)),
        forall|n: nat|
            ended(#[trigger] w.after(tree, WalkState::starting(roots), n)) ==> match w.after(
                tree,
                WalkState::starting(roots),
                n,
            ) {
                Ok(s) => w.walked(tree, roots) == Ok::<index::WalkView, ErrorView>(s.outcome),
                Err(e) => w.walked(tree, roots) == Err::<index::WalkView, ErrorView>(e),
            },
{
    let start = WalkState::starting(roots);
    let n = lemma_ends(w, tree, start);
    let m = choose|m: nat| ended(#[trigger] w.after(tree, start, m));
    assert forall|n: nat| ended(#[trigger] w.after(tree, start, n)) implies match w.after(
        tree,
        start,
        n,
    ) {
        Ok(s) => w.walked(tree, roots) == Ok::<index::WalkView, ErrorView>(s.outcome),
        Err(e) => w.walked(tree, roots) == Err::<index::WalkView, ErrorView>(e),
    } by {
        lemma_one_end(w, tree, start, n, m);
    }
}

// ---------------------------------------------------------------------------
// What is recorded and noticed
// ---------------------------------------------------------------------------

impl LiveWalker {
    /// Whether the walk goes into `path`: it is a directory, and no network or pseudo
    /// mount.
    pub open spec fn opens(&self, tree: Tree, path: Seq<char>) -> bool {
        &&& tree.stat(path) matches Some(l) && l.kind is Directory
        &&& self.mounts.fstype_at(path) is None
    }

    /// Whether the walk goes into everything from `root` down to `path`.
    pub open spec fn clear_way(&self, tree: Tree, root: Seq<char>, path: Seq<char>) -> bool {
        &&& in_root(root, path)
        &&& forall|a: Seq<char>|
            in_root(root, a) && #[trigger] below(a, path) ==> self.opens(tree, a)
    }

    /// Whether there is a clear way to `path` from a root that is walked.
    pub open spec fn reaches(&self, tree: Tree, roots: Seq<Seq<char>>, path: Seq<char>) -> bool {
        exists|root: Seq<char>|
            walk::real_paths(roots).contains(root) && #[trigger] self.clear_way(tree, root, path)
    }

    /// Whether a stat record is of an inode in scope, and true to it: reached, no symlink,
    /// and no pseudo-filesystem root.
    pub open spec fn in_scope(
        &self,
        tree: Tree,
        roots: Seq<Seq<char>>,
        stat: index::StatView,
    ) -> bool {
        &&& self.reaches(tree, roots, stat.path)
        &&& !scope::pseudo_fs(stat.path)
        &&& tree.stat(stat.path) matches Some(l) && !(l.kind is Symlink) && stat
            == walk::stat_of(stat.path, l)
    }

    /// Whether a notice is of a skipped mount that was met.
    pub open spec fn met_mount(
        &self,
        tree: Tree,
        roots: Seq<Seq<char>>,
        skip: index::SkipView,
    ) -> bool {
        &&& self.reaches(tree, roots, skip.path)
        &&& self.mounts.fstype_at(skip.path) == Some(skip.fstype)
        &&& tree.stat(skip.path) matches Some(l) && !(l.kind is Symlink)
    }

    /// Whether every directory of the records that is a network or pseudo mount has its
    /// notice.
    pub open spec fn notices_all(&self, w: index::WalkView) -> bool {
        forall|i: int|
            0 <= i < w.stats.len() && (#[trigger] w.stats[i]).is_dir ==> (self.mounts.fstype_at(
                w.stats[i].path,
            ) matches Some(fstype) ==> w.skipped.contains(
                index::SkipView { path: w.stats[i].path, fstype },
            ))
    }

    /// What holds of the records, the notices and the questions at each point of a walk.
    spec fn sound(&self, tree: Tree, roots: Seq<Seq<char>>, s: WalkState) -> bool {
        &&& forall|i: int|
            0 <= i < s.roots.len() ==> walk::real_paths(roots).contains(#[trigger] s.roots[i])
        &&& forall|i: int|
            0 <= i < s.stack.len() ==> self.reaches(tree, roots, #[trigger] s.stack[i])
                && self.opens(tree, s.stack[i])
        &&& forall|i: int|
            0 <= i < s.entries.len() ==> self.reaches(tree, roots, #[trigger] s.entries[i])
                && !scope::pseudo_fs(s.entries[i])
        &&& forall|i: int|
            0 <= i < s.outcome.stats.len() ==> self.in_scope(
                tree,
                roots,
                #[trigger] s.outcome.stats[i],
            )
        &&& forall|i: int|
            0 <= i < s.outcome.skipped.len() ==> self.met_mount(
                tree,
                roots,
                #[trigger] s.outcome.skipped[i],
            )
        &&& self.notices_all(s.outcome)
    }
}

/// A root lies on the way to itself.
proof fn lemma_root_reached(w: &LiveWalker, tree: Tree, roots: Seq<Seq<char>>, root: Seq<char>)
    requires
        walk::real_paths(roots).contains(root),
    ensures
        w.reaches(tree, roots, root),
{
    assert(w.clear_way(tree, root, root));
}

/// What is listed in a directory that was reached and opened is reached.
proof fn lemma_entry_reached(
    w: &LiveWalker,
    tree: Tree,
    roots: Seq<Seq<char>>,
    dir: Seq<char>,
    path: Seq<char>,
)
    requires
        w.reaches(tree, roots, dir),
        w.opens(tree, dir),
        entry_of(dir, path),
    ensures
        w.reaches(tree, roots, path),
{
    let root = choose|root: Seq<char>|
        walk::real_paths(roots).contains(root) && #[trigger] w.clear_way(tree, root, dir);
    lemma_entry_in_root(root, dir, path);
    assert forall|a: Seq<char>| in_root(root, a) && #[trigger] below(a, path) implies w.opens(
        tree,
        a,
    ) by {
        lemma_above_entry(root, dir, path, a);
    }
    assert(w.clear_way(tree, root, path));
}

/// What a list holds, it holds with one more item; and it holds that.
proof fn lemma_pushed<A>(list: Seq<A>, item: A)
    ensures
        list.push(item).contains(item),
        forall|x: A| list.contains(x) ==> #[trigger] list.push(item).contains(x),
{
    assert(list.push(item)[list.len() as int] == item);
    assert forall|x: A| list.contains(x) implies #[trigger] list.push(item).contains(x) by {
        let i = choose|i: int| 0 <= i < list.len() && list[i] == x;
        assert(list.push(item)[i] == x);
    }
}

/// One answer keeps what holds of a walk.
proof fn lemma_sound_step(w: &LiveWalker, tree: Tree, roots: Seq<Seq<char>>, s: WalkState)
    requires
        tree.well_named(),
        w.sound(tree, roots, s),
    ensures
        w.step(tree, s) matches Ok(next) ==> w.sound(tree, roots, next),
{
    if let Ok(next) = w.step(tree, s) {
        match s.action() {
            ActionView::StatRoot(root) => {
                walk::pseudo_roots_are_never_walked(roots, root);
                lemma_root_reached(w, tree, roots, root);
                assert forall|i: int| 0 <= i < next.roots.len() implies walk::real_paths(
                    roots,
                ).contains(#[trigger] next.roots[i]) by {
                    assert(next.roots[i] == s.roots[i + 1]);
                }
                if let Some(fstype) = w.mounts.fstype_at(root) {
                    lemma_pushed(s.outcome.skipped, index::SkipView { path: root, fstype });
                }
            },
            ActionView::List(dir) => {
                assert(dir == s.stack[s.stack.len() - 1]);
                if let Some(paths) = tree.listing(dir) {
                    assert forall|i: int| 0 <= i < next.entries.len() implies w.reaches(
                        tree,
                        roots,
                        #[trigger] next.entries[i],
                    ) && !scope::pseudo_fs(next.entries[i]) by {
                        let e = next.entries[i];
                        assert(walk::real_paths(paths).contains(e));
                        walk::pseudo_roots_are_never_walked(paths, e);
                        let j = choose|j: int| 0 <= j < paths.len() && paths[j] == e;
                        assert(entry_of(dir, tree.listings[dir][j]));
                        lemma_entry_reached(w, tree, roots, dir, e);
                    }
                }
            },
            ActionView::StatEntry(path) => {
                assert(path == s.entries[0]);
                assert forall|i: int| 0 <= i < next.entries.len() implies w.reaches(
                    tree,
                    roots,
                    #[trigger] next.entries[i],
                ) && !scope::pseudo_fs(next.entries[i]) by {
                    assert(next.entries[i] == s.entries[i + 1]);
                }
                if let Some(fstype) = w.mounts.fstype_at(path) {
                    lemma_pushed(s.outcome.skipped, index::SkipView { path, fstype });
                }
            },
            ActionView::Done => {},
        }
    }
}

/// What holds of a walk holds however many answers later.
proof fn lemma_sound(w: &LiveWalker, tree: Tree, roots: Seq<Seq<char>>, s: WalkState, n: nat)
    requires
        tree.well_named(),
        w.sound(tree, roots, s),
    ensures
        w.after(tree, s, n) matches Ok(t) ==> w.sound(tree, roots, t),
    decreases n,
{
    if n > 0 {
        lemma_sound_step(w, tree, roots, s);
        if let Ok(next) = w.step(tree, s) {
            lemma_sound(w, tree, roots, next, (n - 1) as nat);
        }
    }
}

/// A walk records nothing out of scope: everything on the way from a root to a record was
/// a directory that the walk goes into, so nothing lies behind a symlink or below a skipped
/// mount; no record is of a symlink or of a pseudo-filesystem root; and each says what the
/// inode is. Every skipped mount that is met as a directory leaves a notice next to its
/// record, and every notice is of a mount that was met.
pub proof fn walks_stay_in_scope(w: &LiveWalker, tree: Tree, roots: Seq<Seq<char>>)
    requires
        tree.well_named(),
    ensures
        w.walked(tree, roots) matches Ok(out) ==> {
            &&& forall|i: int|
                0 <= i < out.stats.len() ==> w.in_scope(tree, roots, #[trigger] out.stats[i])
            &&& forall|i: int|
                0 <= i < out.skipped.len() ==> w.met_mount(
                    tree,
                    roots,
                    #[trigger] out.skipped[i],
                )
            &&& w.notices_all(out)
        },
{
    let start = WalkState::starting(roots);
    every_walk_ends(w, tree, roots);
    let n = choose|n: nat| ended(#[trigger] w.after(tree, start, n));
    assert(w.sound(tree, roots, start)) by {
        assert forall|i: int| 0 <= i < start.roots.len() implies walk::real_paths(
            roots,
        ).contains(#[trigger] start.roots[i]) by {}
    }
    lemma_sound(w, tree, roots, start, n);
}

/// With one root, nothing is recorded behind a symlink or below a skipped mount at or
/// below that root.
pub proof fn nothing_is_recorded_behind(
    w: &LiveWalker,
    tree: Tree,
    root: Seq<char>,
    a: Seq<char>,
)
    requires
        tree.well_named(),
        in_root(root, a),
        w.mounts.fstype_at(a) is Some || (tree.stat(a) matches Some(l) && l.kind is Symlink),
    ensures
        w.walked(tree, seq![root]) matches Ok(out) ==> forall|i: int|
            0 <= i < out.stats.len() ==> !below(a, (#[trigger] out.stats[i]).path),
{
    let roots = seq![root];
    walks_stay_in_scope(w, tree, roots);
    if let Ok(out) = w.walked(tree, roots) {
        assert forall|i: int| 0 <= i < out.stats.len() implies !below(
            a,
            (#[trigger] out.stats[i]).path,
        ) by {
            let path = out.stats[i].path;
            let from = choose|from: Seq<char>|
                walk::real_paths(roots).contains(from) && #[trigger] w.clear_way(
                    tree,
                    from,
                    path,
                );
            walk::pseudo_roots_are_never_walked(roots, from);
            assert(from == root);
        }
    }
}

// ---------------------------------------------------------------------------
// What is not missed
// ---------------------------------------------------------------------------

impl LiveWalker {
    /// Whether a root has what is due to it: a notice where it is a network or pseudo
    /// mount, a record otherwise, and neither where it is absent or a symlink.
    pub open spec fn root_settled(
        &self,
        tree: Tree,
        w: index::WalkView,
        root: Seq<char>,
    ) -> bool {
        tree.inodes.contains_key(root) ==> match tree.inodes[root] {
            Err(_) => false,
            Ok(l) => if l.kind is Symlink {
                true
            } else if let Some(fstype) = self.mounts.fstype_at(root) {
                w.skipped.contains(index::SkipView { path: root, fstype })
            } else {
                w.stats.contains(walk::stat_of(root, l))
            },
        }
    }
}

impl Tree {
    /// Whether an entry is recorded, as far as it can be stat'd and is no symlink.
    pub open spec fn settled(self, w: index::WalkView, path: Seq<char>) -> bool {
        match self.stat(path) {
            Some(l) => l.kind is Symlink || w.stats.contains(walk::stat_of(path, l)),
            None => true,
        }
    }

    /// Whether all that can be listed in `dir` is recorded.
    pub open spec fn all_settled(self, w: index::WalkView, dir: Seq<char>) -> bool {
        self.listing(dir) matches Some(paths) ==> forall|path: Seq<char>|
            walk::real_paths(paths).contains(path) ==> #[trigger] self.settled(w, path)
    }

    /// Whether the inode at `dir` is this directory.
    pub open spec fn is_dir_at(self, dir: Seq<char>, id: (u64, u64)) -> bool {
        self.stat(dir) matches Some(l) && l.kind is Directory && (l.dev, l.ino) == id
    }

    /// Whether `dir` will be listed, or was, and its entries are recorded or will be.
    spec fn underway(self, s: WalkState, dir: Seq<char>) -> bool {
        s.stack.contains(dir) || (self.listing(dir) matches Some(paths) ==> forall|path: Seq<char>|
            walk::real_paths(paths).contains(path) ==> s.entries.contains(path)
                || #[trigger] self.settled(s.outcome, path))
    }

    /// Whether a directory is underway at one of its paths.
    spec fn entered(self, s: WalkState, id: (u64, u64)) -> bool {
        exists|dir: Seq<char>| self.is_dir_at(dir, id) && #[trigger] self.underway(s, dir)
    }
}

impl LiveWalker {
    /// What holds of what is still owed, at each point of a walk.
    spec fn complete(&self, tree: Tree, roots: Seq<Seq<char>>, s: WalkState) -> bool {
        &&& forall|root: Seq<char>| #[trigger]
            walk::real_paths(roots).contains(root) ==> s.roots.contains(root)
                || self.root_settled(tree, s.outcome, root)
        &&& forall|id: (u64, u64)| #[trigger] s.visited.contains(id) ==> tree.entered(s, id)
        &&& forall|path: Seq<char>, l: Lstat|
            self.opens(tree, path) && tree.stat(path) == Some(l) && #[trigger] s.outcome.stats.contains(
                walk::stat_of(path, l),
            ) ==> tree.entered(s, (l.dev, l.ino))
    }
}

/// What is underway stays underway, where records are only added, and what leaves the
/// stack or the entries is dealt with.
proof fn lemma_underway(tree: Tree, s: WalkState, t: WalkState)
    requires
        forall|x: index::StatView|
            s.outcome.stats.contains(x) ==> #[trigger] t.outcome.stats.contains(x),
        forall|path: Seq<char>| #[trigger]
            s.entries.contains(path) ==> t.entries.contains(path) || tree.settled(
                t.outcome,
                path,
            ),
        forall|dir: Seq<char>| #[trigger] s.stack.contains(dir) ==> tree.underway(t, dir),
    ensures
        forall|dir: Seq<char>| #[trigger] tree.underway(s, dir) ==> tree.underway(t, dir),
        forall|id: (u64, u64)| #[trigger] tree.entered(s, id) ==> tree.entered(t, id),
{
    assert forall|dir: Seq<char>| #[trigger] tree.underway(s, dir) implies tree.underway(t, dir) by {
        if !s.stack.contains(dir) {
            if let Some(paths) = tree.listing(dir) {
                assert forall|path: Seq<char>| walk::real_paths(paths).contains(
                    path,
                ) implies t.entries.contains(path) || #[trigger] tree.settled(t.outcome, path) by {
                    assert(s.entries.contains(path) || tree.settled(s.outcome, path));
                }
            }
        }
    }
    assert forall|id: (u64, u64)| #[trigger] tree.entered(s, id) implies tree.entered(t, id) by {
        let dir = choose|dir: Seq<char>| tree.is_dir_at(dir, id) && #[trigger] tree.underway(s, dir);
        assert(tree.underway(t, dir));
    }
}

/// One answer keeps what holds of what is owed.
proof fn lemma_complete_step(w: &LiveWalker, tree: Tree, roots: Seq<Seq<char>>, s: WalkState)
    requires
        w.complete(tree, roots, s),
    ensures
        w.step(tree, s) matches Ok(next) ==> w.complete(tree, roots, next),
{
    if let Ok(next) = w.step(tree, s) {
        match s.action() {
            ActionView::StatRoot(root) => {
                lemma_complete_root(w, tree, roots, s, next);
            },
            ActionView::List(dir) => {
                lemma_complete_list(w, tree, roots, s, next);
            },
            ActionView::StatEntry(path) => {
                lemma_complete_entry(w, tree, roots, s, next);
            },
            ActionView::Done => {},
        }
    }
}

proof fn lemma_complete_root(
    w: &LiveWalker,
    tree: Tree,
    roots: Seq<Seq<char>>,
    s: WalkState,
    next: WalkState,
)
    requires
        w.complete(tree, roots, s),
        s.action() is StatRoot,
        w.step(tree, s) == Ok::<WalkState, ErrorView>(next),
    ensures
        w.complete(tree, roots, next),
{
    let root = s.roots[0];
    let found = tree.stat(root);
    if let Some(l) = found {
        lemma_pushed(s.outcome.stats, walk::stat_of(root, l));
    }
    if let Some(fstype) = w.mounts.fstype_at(root) {
        lemma_pushed(s.outcome.skipped, index::SkipView { path: root, fstype });
    }
    lemma_underway(tree, s, next);
    assert forall|r: Seq<char>| #[trigger]
        walk::real_paths(roots).contains(r) implies next.roots.contains(r) || w.root_settled(
        tree,
        next.outcome,
        r,
    ) by {
        if s.roots.contains(r) && r != root {
            let i = choose|i: int| 0 <= i < s.roots.len() && s.roots[i] == r;
            assert(next.roots[i - 1] == r);
        }
    }
    if w.opens(tree, root) {
        let l = found->0;
        assert(next.stack[0] == root);
        assert(tree.is_dir_at(root, (l.dev, l.ino)));
        assert(tree.underway(next, root));
        assert(tree.entered(next, (l.dev, l.ino)));
    }
    assert forall|path: Seq<char>, l: Lstat|
        w.opens(tree, path) && tree.stat(path) == Some(l) && #[trigger] next.outcome.stats.contains(
            walk::stat_of(path, l),
        ) implies tree.entered(next, (l.dev, l.ino)) by {
        let x = walk::stat_of(path, l);
        if !s.outcome.stats.contains(x) {
            let i = choose|i: int| 0 <= i < next.outcome.stats.len() && next.outcome.stats[i] == x;
            if i < s.outcome.stats.len() {
                assert(s.outcome.stats[i] == x);
            }
            assert(path == root);
        }
    }
}

proof fn lemma_complete_list(
    w: &LiveWalker,
    tree: Tree,
    roots: Seq<Seq<char>>,
    s: WalkState,
    next: WalkState,
)
    requires
        w.complete(tree, roots, s),
        s.action() is List,
        w.step(tree, s) == Ok::<WalkState, ErrorView>(next),
    ensures
        w.complete(tree, roots, next),
{
    let dir = s.stack.last();
    assert(tree.underway(next, dir));
    assert forall|d: Seq<char>| #[trigger] s.stack.contains(d) implies tree.underway(next, d) by {
        let i = choose|i: int| 0 <= i < s.stack.len() && s.stack[i] == d;
        if i < s.stack.len() - 1 {
            assert(next.stack[i] == d);
        }
    }
    lemma_underway(tree, s, next);
}

proof fn lemma_complete_entry(
    w: &LiveWalker,
    tree: Tree,
    roots: Seq<Seq<char>>,
    s: WalkState,
    next: WalkState,
)
    requires
        w.complete(tree, roots, s),
        s.action() is StatEntry,
        w.step(tree, s) == Ok::<WalkState, ErrorView>(next),
    ensures
        w.complete(tree, roots, next),
{
    let path = s.entries[0];
    let found = tree.stat(path);
    if let Some(l) = found {
        lemma_pushed(s.outcome.stats, walk::stat_of(path, l));
    }
    if let Some(fstype) = w.mounts.fstype_at(path) {
        lemma_pushed(s.outcome.skipped, index::SkipView { path, fstype });
    }
    lemma_pushed(s.stack, path);
    assert forall|e: Seq<char>| #[trigger] s.entries.contains(e) implies next.entries.contains(e)
        || tree.settled(next.outcome, e) by {
        if e != path {
            let i = choose|i: int| 0 <= i < s.entries.len() && s.entries[i] == e;
            assert(next.entries[i - 1] == e);
        }
    }
    lemma_underway(tree, s, next);
    if w.opens(tree, path) {
        let l = found->0;
        if !s.visited.contains((l.dev, l.ino)) {
            assert(tree.is_dir_at(path, (l.dev, l.ino)));
            assert(tree.underway(next, path));
        }
        assert(tree.entered(next, (l.dev, l.ino)));
    }
    assert forall|p: Seq<char>, l: Lstat|
        w.opens(tree, p) && tree.stat(p) == Some(l) && #[trigger] next.outcome.stats.contains(
            walk::stat_of(p, l),
        ) implies tree.entered(next, (l.dev, l.ino)) by {
        let x = walk::stat_of(p, l);
        if !s.outcome.stats.contains(x) {
            let i = choose|i: int| 0 <= i < next.outcome.stats.len() && next.outcome.stats[i] == x;
            if i < s.outcome.stats.len() {
                assert(s.outcome.stats[i] == x);
            }
            assert(p == path);
        }
    }
}

/// What holds of what is owed holds however many answers later.
proof fn lemma_complete(w: &LiveWalker, tree: Tree, roots: Seq<Seq<char>>, s: WalkState, n: nat)
    requires
        w.complete(tree, roots, s),
    ensures
        w.after(tree, s, n) matches Ok(t) ==> w.complete(tree, roots, t),
    decreases n,
{
    if n > 0 {
        lemma_complete_step(w, tree, roots, s);
        if let Ok(next) = w.step(tree, s) {
            lemma_complete(w, tree, roots, next, (n - 1) as nat);
        }
    }
}

/// A walk misses nothing in scope: every root that is walked has its record or its notice,
/// and of every directory that is recorded, and is no skipped mount, everything that can be
/// listed, is no symlink and can be stat'd is recorded, under one of the paths of that
/// directory.
pub proof fn walks_miss_nothing(w: &LiveWalker, tree: Tree, roots: Seq<Seq<char>>)
    ensures
        w.walked(tree, roots) matches Ok(out) ==> {
            &&& forall|root: Seq<char>| #[trigger]
                walk::real_paths(roots).contains(root) ==> w.root_settled(tree, out, root)
            &&& forall|path: Seq<char>, l: Lstat|
                w.opens(tree, path) && tree.stat(path) == Some(l)
                    && #[trigger] out.stats.contains(walk::stat_of(path, l)) ==> exists|
                    dir: Seq<char>,
                |
                    tree.is_dir_at(dir, (l.dev, l.ino)) && #[trigger] tree.all_settled(out, dir)
        },
{
    let start = WalkState::starting(roots);
    every_walk_ends(w, tree, roots);
    let n = choose|n: nat| ended(#[trigger] w.after(tree, start, n));
    assert(w.complete(tree, roots, start));
    lemma_complete(w, tree, roots, start, n);
    if let Ok(s) = w.after(tree, start, n) {
        let out = s.outcome;
        assert forall|path: Seq<char>, l: Lstat|
            w.opens(tree, path) && tree.stat(path) == Some(l) && #[trigger] out.stats.contains(
                walk::stat_of(path, l),
            ) implies exists|dir: Seq<char>|
            tree.is_dir_at(dir, (l.dev, l.ino)) && #[trigger] tree.all_settled(out, dir) by {
            let id = (l.dev, l.ino);
            assert(tree.entered(s, id));
            let dir = choose|dir: Seq<char>|
                tree.is_dir_at(dir, id) && #[trigger] tree.underway(s, dir);
            assert(tree.all_settled(out, dir));
        }
    }
}

// ---------------------------------------------------------------------------
// When a walk fails, and what one root gives
// ---------------------------------------------------------------------------

/// A walk fails with the root that it cannot stat.
proof fn lemma_failure(w: &LiveWalker, tree: Tree, roots: Seq<Seq<char>>, s: WalkState, n: nat)
    requires
        forall|i: int|
            0 <= i < s.roots.len() ==> walk::real_paths(roots).contains(#[trigger] s.roots[i]),
    ensures
        w.after(tree, s, n) matches Err(e) ==> (e matches ErrorView::Walk { root, reason }
            && walk::real_paths(roots).contains(root) && tree.inodes.contains_key(root)
            && tree.inodes[root] == Err::<Lstat, Seq<char>>(reason)),
    decreases n,
{
    if n > 0 {
        match w.step(tree, s) {
            Ok(next) => {
                assert forall|i: int| 0 <= i < next.roots.len() implies walk::real_paths(
                    roots,
                ).contains(#[trigger] next.roots[i]) by {
                    if s.action() is StatRoot {
                        assert(next.roots[i] == s.roots[i + 1]);
                    }
                }
                lemma_failure(w, tree, roots, next, (n - 1) as nat);
            },
            Err(e) => {
                let root = s.roots[0];
                assert(walk::real_paths(roots).contains(root));
            },
        }
    }
}

/// A walk fails if and only if a root that is walked exists and cannot be stat'd, and then
/// with such a root and its reason. An unreadable directory below a root never fails it.
pub proof fn walks_fail_on_roots_alone(w: &LiveWalker, tree: Tree, roots: Seq<Seq<char>>)
    ensures
        w.walked(tree, roots) is Err <==> exists|root: Seq<char>| #[trigger]
            walk::real_paths(roots).contains(root) && tree.inodes.contains_key(root)
                && tree.inodes[root] is Err,
        w.walked(tree, roots) matches Err(e) ==> (e matches ErrorView::Walk { root, reason }
            && walk::real_paths(roots).contains(root) && tree.inodes.contains_key(root)
            && tree.inodes[root] == Err::<Lstat, Seq<char>>(reason)),
{
    let start = WalkState::starting(roots);
    every_walk_ends(w, tree, roots);
    walks_miss_nothing(w, tree, roots);
    let n = choose|n: nat| ended(#[trigger] w.after(tree, start, n));
    lemma_failure(w, tree, roots, start, n);
}

/// What the walk of one root gives: nothing where the root is a pseudo-filesystem, absent
/// or a symlink; a notice and no record where it is a skipped mount; an error where it
/// cannot be stat'd; and else its record.
pub proof fn one_root(w: &LiveWalker, tree: Tree, root: Seq<char>)
    ensures
        ({
            let nothing = index::WalkView { stats: seq![], skipped: seq![] };
            let r = w.walked(tree, seq![root]);
            if scope::pseudo_fs(root) || !tree.inodes.contains_key(root) {
                r == Ok::<index::WalkView, ErrorView>(nothing)
            } else {
                match tree.inodes[root] {
                    Err(reason) => r == Err::<index::WalkView, ErrorView>(
                        ErrorView::Walk { root, reason },
                    ),
                    Ok(l) => if l.kind is Symlink {
                        r == Ok::<index::WalkView, ErrorView>(nothing)
                    } else if let Some(fstype) = w.mounts.fstype_at(root) {
                        r == Ok::<index::WalkView, ErrorView>(
                            index::WalkView {
                                stats: seq![],
                                skipped: seq![index::SkipView { path: root, fstype }],
                            },
                        )
                    } else {
                        r matches Ok(out) && out.stats.contains(walk::stat_of(root, l))
                    },
                }
            }
        }),
{
    let roots = seq![root];
    let start = WalkState::starting(roots);
    every_walk_ends(w, tree, roots);
    walks_miss_nothing(w, tree, roots);
    walks_fail_on_roots_alone(w, tree, roots);
    walk::pseudo_roots_are_never_walked(roots, root);
    assert(roots[0] == root);
    assert(roots.drop_last() =~= seq![]);
    assert(walk::real_paths(roots.drop_last()) =~= seq![]);
    if scope::pseudo_fs(root) {
        assert(walk::real_paths(roots) =~= seq![]);
        assert(ended(w.after(tree, start, 0)));
    } else {
        assert(walk::real_paths(roots) =~= seq![root]);
        assert(start.roots.skip(1) =~= seq![]);
        if let Ok(next) = w.step(tree, start) {
            assert(w.after(tree, next, 0) == Ok::<WalkState, ErrorView>(next));
            assert(w.after(tree, start, 1) == Ok::<WalkState, ErrorView>(next));
            assert(ended(w.after(tree, start, 1)) || next.stack.len() > 0);
        } else {
            assert(w.after(tree, start, 1) is Err);
        }
    }
}

} // verus!
