//! Reachability: whether a principal can actually traverse to an inode.
//!
//! A permissive mode on an inode means nothing if the principal cannot walk the
//! directory chain to it. An inode counts as reachable only when every ancestor
//! directory from the scan root down to the inode's parent grants the principal
//! effective `x` (search).

use vstd::prelude::*;

use crate::catalog;
use crate::exposure::access;
use crate::exposure::access::Principal;
use crate::exposure::index;
use crate::exposure::index::PermissionIndex;
use crate::text;
use vstd::hash_map::StringHashMap;
use vstd::hash_set::StringHashSet;

verus! {

broadcast use vstd::string::group_string_axioms;

/// Whether the principal may search the indexed directory at `path`. A directory
/// missing from the index blocks: traversal is never made up.
pub open spec fn may_search(
    recs: Seq<index::RecordView>,
    p: access::PrincipalView,
    path: Seq<char>,
) -> bool {
    match index::record_at(recs, path) {
        Some(rec) => access::effective_of(rec, p).access.execute,
        None => false,
    }
}

/// Whether the principal may pass through the directory at `path`: it and every
/// ancestor up to the scan root grant search. What lies above the roots is open.
pub open spec fn passable(
    recs: Seq<index::RecordView>,
    p: access::PrincipalView,
    roots: Seq<Seq<char>>,
    path: Seq<char>,
) -> bool
    decreases path.len(),
{
    if !catalog::under_some(roots, path) {
        true
    } else if catalog::parent_of(path) == path {
        may_search(recs, p, path)
    } else {
        proof {
            catalog::lemma_parent_shorter(path);
        }
        passable(recs, p, roots, catalog::parent_of(path)) && may_search(recs, p, path)
    }
}

/// Whether some record has this path.
pub open spec fn indexed(recs: Seq<index::RecordView>, path: Seq<char>) -> bool {
    exists|i: int| 0 <= i < recs.len() && (#[trigger] recs[i]).path == path
}

/// Whether the principal reaches the inode at `path`. Root reaches everything.
pub open spec fn reaches(
    recs: Seq<index::RecordView>,
    p: access::PrincipalView,
    roots: Seq<Seq<char>>,
    path: Seq<char>,
) -> bool {
    indexed(recs, path) && (p.uid == 0 || passable(recs, p, roots, catalog::parent_of(path)))
}

/// The set of inode paths a principal can actually reach, computed once over an index.
pub struct Reachability {
    reachable: StringHashSet,
}

impl Reachability {
    /// The reachable paths.
    pub closed spec fn paths(&self) -> Set<Seq<char>> {
        self.reachable@
    }

    /// Compute reachability for `principal` over `index`, given the scan `roots` that
    /// bound the ancestor climb.
    pub fn compute(index: &PermissionIndex, principal: &Principal, roots: &[String]) -> (r: Self)
        ensures
            forall|q: Seq<char>| #[trigger]
                r.paths().contains(q) == reaches(index.recs(), principal@, text::views(roots@), q),
    {
        let ghost recs = index.recs();
        let ghost rs = text::views(roots@);
        let mut reachable = StringHashSet::new();
        let mut cache: StringHashMap<bool> = StringHashMap::new();
        let records = index.records();
        let mut i: usize = 0;
        while i < records.len()
            invariant
                recs == index.recs(),
                rs == text::views(roots@),
                index::record_views(records@) == recs,
                i <= records@.len(),
                cache_sound(cache@, recs, principal@, rs),
                forall|q: Seq<char>| #[trigger]
                    reachable@.contains(q) == (indexed(recs.take(i as int), q) && (
                    principal.uid == 0 || passable(
                        recs,
                        principal@,
                        rs,
                        catalog::parent_of(q),
                    ))),
            decreases records@.len() - i,
        {
            let rec = &records[i];
            let ghost was = reachable@;
            let open = if principal.uid == 0 {
                true
            } else {
                let parent = catalog::parent_dir(&rec.path);
                reachable_dir(&parent, index, principal, roots, &mut cache)
            };
            if open {
                reachable.insert(rec.path.clone());
            }
            proof {
                assert(recs[i as int] == rec@);
                assert forall|q: Seq<char>| indexed(recs.take(i + 1), q) == (indexed(
                    recs.take(i as int),
                    q,
                ) || q == rec@.path) by {
                    lemma_indexed_step(recs, i as int, q);
                }
            }
            i += 1;
        }
        proof {
            assert(recs.take(i as int) =~= recs);
        }
        Reachability { reachable }
    }

    /// Whether `path` is reachable for the principal this was computed for.
    pub fn is_reachable(&self, path: &str) -> (r: bool)
        ensures
            r == self.paths().contains(path@),
    {
        self.reachable.contains(path)
    }

    /// The number of reachable inodes.
    pub fn len(&self) -> (n: usize)
        ensures
            n == self.paths().len(),
    {
        self.reachable.len()
    }

    /// Whether nothing is reachable.
    pub fn is_empty(&self) -> (r: bool)
        ensures
            r == (self.paths() == Set::<Seq<char>>::empty()),
    {
        self.reachable.is_empty()
    }
}

/// One more record adds its own path.
proof fn lemma_indexed_step(recs: Seq<index::RecordView>, i: int, q: Seq<char>)
    requires
        0 <= i < recs.len(),
    ensures
        indexed(recs.take(i + 1), q) == (indexed(recs.take(i), q) || q == recs[i].path),
{
    let a = recs.take(i);
    let b = recs.take(i + 1);
    if indexed(a, q) {
        let j = choose|j: int| 0 <= j < a.len() && (#[trigger] a[j]).path == q;
        assert(b[j].path == q);
    }
    if q == recs[i].path {
        assert(b[i].path == q);
    }
    if indexed(b, q) {
        let j = choose|j: int| 0 <= j < b.len() && (#[trigger] b[j]).path == q;
        if j < i {
            assert(a[j].path == q);
        }
    }
}

/// Every cached verdict is right.
spec fn cache_sound(
    cache: Map<Seq<char>, bool>,
    recs: Seq<index::RecordView>,
    p: access::PrincipalView,
    roots: Seq<Seq<char>>,
) -> bool {
    forall|q: Seq<char>| #[trigger]
        cache.contains_key(q) ==> cache[q] == passable(recs, p, roots, q)
}

/// Whether directory `path` is reachable and traversable; the verdict is memoized in
/// `cache`, so each directory is evaluated once.
fn reachable_dir(
    path: &str,
    index: &PermissionIndex,
    principal: &Principal,
    roots: &[String],
    cache: &mut StringHashMap<bool>,
) -> (r: bool)
    requires
        cache_sound(old(cache)@, index.recs(), principal@, text::views(roots@)),
    ensures
        r == passable(index.recs(), principal@, text::views(roots@), path@),
        cache_sound(final(cache)@, index.recs(), principal@, text::views(roots@)),
    decreases path@.len(),
{
    if !catalog::path_under_some(roots, path) {
        return true;
    }
    match cache.get(path) {
        Some(cached) => {
            return *cached;
        },
        None => {},
    }
    let parent = catalog::parent_dir(path);
    proof {
        catalog::lemma_parent_shorter(path@);
    }
    let verdict = if text::same(&parent, path) {
        has_search(path, index, principal)
    } else {
        reachable_dir(&parent, index, principal, roots, cache) && has_search(
            path,
            index,
            principal,
        )
    };
    cache.insert(path.to_owned(), verdict);
    verdict
}

/// Whether the principal has effective `x` on the indexed inode at `path`.
fn has_search(path: &str, index: &PermissionIndex, principal: &Principal) -> (r: bool)
    ensures
        r == may_search(index.recs(), principal@, path@),
{
    match index.get(path) {
        Some(rec) => access::effective(rec, principal).access.execute,
        None => false,
    }
}

// ---------------------------------------------------------------------------
// Laws
// ---------------------------------------------------------------------------

/// The directory `n` levels up from a path.
pub open spec fn up(path: Seq<char>, n: nat) -> Seq<char>
    decreases n,
{
    if n == 0 {
        path
    } else {
        up(catalog::parent_of(path), (n - 1) as nat)
    }
}

/// A passable directory is passable at every level up to the roots: each level that is
/// under a root, with all below it, may be searched.
proof fn lemma_levels_are_searched(
    recs: Seq<index::RecordView>,
    p: access::PrincipalView,
    roots: Seq<Seq<char>>,
    path: Seq<char>,
    n: nat,
)
    requires
        passable(recs, p, roots, path),
        forall|k: nat| k <= n ==> catalog::under_some(roots, #[trigger] up(path, k)),
    ensures
        may_search(recs, p, up(path, n)),
    decreases n,
{
    assert(up(path, 0) == path);
    if n > 0 {
        let parent = catalog::parent_of(path);
        if parent == path {
            lemma_levels_are_searched_again(recs, p, path, n);
        } else {
            assert forall|k: nat| k <= n - 1 implies catalog::under_some(
                roots,
                #[trigger] up(parent, k),
            ) by {
                assert(up(path, k + 1) == up(parent, k));
            }
            lemma_levels_are_searched(recs, p, roots, parent, (n - 1) as nat);
        }
    }
}

/// A path that is its own parent stays where it is.
proof fn lemma_levels_are_searched_again(
    recs: Seq<index::RecordView>,
    p: access::PrincipalView,
    path: Seq<char>,
    n: nat,
)
    requires
        catalog::parent_of(path) == path,
        may_search(recs, p, path),
    ensures
        may_search(recs, p, up(path, n)),
    decreases n,
{
    if n > 0 {
        lemma_levels_are_searched_again(recs, p, path, (n - 1) as nat);
    }
}

/// Reaching a path takes the right to search every directory above it in the scanned
/// trees: one that may not be searched, or that the index does not hold, blocks
/// everything below it.
pub proof fn reaching_takes_every_ancestor(
    recs: Seq<index::RecordView>,
    p: access::PrincipalView,
    roots: Seq<Seq<char>>,
    path: Seq<char>,
    n: nat,
)
    requires
        reaches(recs, p, roots, path),
        p.uid != 0,
        n > 0,
        forall|k: nat| 0 < k <= n ==> catalog::under_some(roots, #[trigger] up(path, k)),
    ensures
        may_search(recs, p, up(path, n)),
{
    let parent = catalog::parent_of(path);
    assert forall|k: nat| k <= n - 1 implies catalog::under_some(
        roots,
        #[trigger] up(parent, k),
    ) by {
        assert(up(path, k + 1) == up(parent, k));
    }
    lemma_levels_are_searched(recs, p, roots, parent, (n - 1) as nat);
}

/// The superuser reaches everything that is indexed, and nobody reaches anything else.
pub proof fn root_reaches_the_whole_index(
    recs: Seq<index::RecordView>,
    p: access::PrincipalView,
    roots: Seq<Seq<char>>,
    path: Seq<char>,
)
    ensures
        p.uid == 0 ==> reaches(recs, p, roots, path) == indexed(recs, path),
        !indexed(recs, path) ==> !reaches(recs, p, roots, path),
{
}

/// A directory is passable where every level up to the roots may be searched.
proof fn lemma_searched_levels_are_passable(
    recs: Seq<index::RecordView>,
    p: access::PrincipalView,
    roots: Seq<Seq<char>>,
    path: Seq<char>,
)
    requires
        forall|n: nat|
            (forall|k: nat| k <= n ==> catalog::under_some(roots, #[trigger] up(path, k)))
                ==> may_search(recs, p, #[trigger] up(path, n)),
    ensures
        passable(recs, p, roots, path),
    decreases path.len(),
{
    assert(up(path, 0) == path);
    if catalog::under_some(roots, path) {
        assert(may_search(recs, p, up(path, 0))) by {
            assert forall|k: nat|
                k <= 0 implies catalog::under_some(roots, #[trigger] up(path, k)) by {
                assert(k == 0);
            }
        }
        let parent = catalog::parent_of(path);
        if parent != path {
            catalog::lemma_parent_shorter(path);
            assert forall|n: nat|
                (forall|k: nat| k <= n ==> catalog::under_some(roots, #[trigger] up(parent, k)))
                    implies may_search(recs, p, #[trigger] up(parent, n)) by {
                assert(up(path, n + 1) == up(parent, n));
                assert forall|k: nat| k <= n + 1 implies catalog::under_some(
                    roots,
                    #[trigger] up(path, k),
                ) by {
                    if k > 0 {
                        assert(up(path, k) == up(parent, (k - 1) as nat));
                    }
                }
            }
            lemma_searched_levels_are_passable(recs, p, roots, parent);
        }
    }
}

/// What a principal reaches: an inode of the index, where the principal is the superuser or
/// may search every directory above it, level by level as long as the levels are under the
/// roots. A directory may be searched where the index has it and the access to it has
/// execute.
pub proof fn reaching_is_searching_every_level(
    recs: Seq<index::RecordView>,
    p: access::PrincipalView,
    roots: Seq<Seq<char>>,
    path: Seq<char>,
)
    ensures
        reaches(recs, p, roots, path) <==> {
            &&& exists|i: int| 0 <= i < recs.len() && (#[trigger] recs[i]).path == path
            &&& p.uid == 0 || forall|n: nat|
                (forall|k: nat|
                    k <= n ==> catalog::under_some(
                        roots,
                        #[trigger] up(catalog::parent_of(path), k),
                    )) ==> (index::record_at(
                    recs,
                    #[trigger] up(catalog::parent_of(path), n),
                ) matches Some(rec) && access::effective_of(rec, p).access.execute)
        },
        up(path, 0) == path,
        forall|n: nat| #[trigger] up(path, n + 1) == up(catalog::parent_of(path), n),
{
    let parent = catalog::parent_of(path);
    assert forall|n: nat| #[trigger] may_search(recs, p, up(parent, n)) == (index::record_at(
        recs,
        up(parent, n),
    ) matches Some(rec) && access::effective_of(rec, p).access.execute) by {}
    if p.uid != 0 {
        if passable(recs, p, roots, parent) {
            assert forall|n: nat|
                (forall|k: nat| k <= n ==> catalog::under_some(roots, #[trigger] up(parent, k)))
                    implies (index::record_at(recs, #[trigger] up(parent, n)) matches Some(rec)
                && access::effective_of(rec, p).access.execute) by {
                lemma_levels_are_searched(recs, p, roots, parent, n);
            }
        } else if forall|n: nat|
            (forall|k: nat| k <= n ==> catalog::under_some(roots, #[trigger] up(parent, k))) ==> (
            index::record_at(recs, #[trigger] up(parent, n)) matches Some(rec)
                && access::effective_of(rec, p).access.execute) {
            assert forall|n: nat|
                (forall|k: nat| k <= n ==> catalog::under_some(roots, #[trigger] up(parent, k)))
                    implies may_search(recs, p, #[trigger] up(parent, n)) by {}
            lemma_searched_levels_are_passable(recs, p, roots, parent);
        }
    }
}

} // verus!
