//! The permission index: one read-only walk of the scan roots, stat and ACL per
//! inode, reused by every query of a run.

use vstd::prelude::*;

use crate::exposure::acl;
use crate::exposure::acl::{AclEntries, AclSource};
use crate::exposure::taxonomy;
use crate::exposure::taxonomy::Classifier;
use crate::exposure::{ErrorView, ExposureError, ObjectClass};
use crate::catalog;
use crate::text;
use vstd::hash_map::StringHashMap;

verus! {

broadcast use vstd::string::group_string_axioms;

/// One inode in the permission index: its ownership, mode, parsed ACL, and class.
#[derive(Debug, Clone, PartialEq, Eq)]
pub struct InodeRecord {
    /// Absolute path of the inode.
    pub path: String,
    /// Owning user id.
    pub uid: u32,
    /// Owning group id.
    pub gid: u32,
    /// Raw Unix mode bits (type + permission + setuid/setgid/sticky).
    pub mode: u32,
    /// The parsed extended POSIX ACL, or `None` when the inode has only a trivial
    /// ACL (its access is fully described by the mode bits).
    pub acl: Option<AclEntries>,
    /// The object class.
    pub class: ObjectClass,
}

/// The contents of an [`InodeRecord`].
#[verifier::ext_equal]
pub struct RecordView {
    /// Absolute path of the inode.
    pub path: Seq<char>,
    /// Owning user id.
    pub uid: u32,
    /// Owning group id.
    pub gid: u32,
    /// Raw Unix mode bits.
    pub mode: u32,
    /// The parsed ACL.
    pub acl: Option<Seq<acl::EntryView>>,
    /// The object class.
    pub class: ObjectClass,
}

/// The contents of an optional ACL.
pub open spec fn opt_acl(a: Option<AclEntries>) -> Option<Seq<acl::EntryView>> {
    match a {
        Some(a) => Some(a@),
        None => None,
    }
}

impl View for InodeRecord {
    type V = RecordView;

    open spec fn view(&self) -> RecordView {
        RecordView {
            path: self.path@,
            uid: self.uid,
            gid: self.gid,
            mode: self.mode,
            acl: opt_acl(self.acl),
            class: self.class,
        }
    }
}

/// The contents of a list of records.
pub open spec fn record_views(v: Seq<InodeRecord>) -> Seq<RecordView> {
    v.map_values(|r: InodeRecord| r@)
}

// ---------------------------------------------------------------------------
// Walks
// ---------------------------------------------------------------------------

/// One inode's raw stat metadata, produced by the walk before ACL and class are known.
#[derive(Debug, PartialEq, Eq)]
pub struct InodeStat {
    /// Absolute path of the inode.
    pub path: String,
    /// Owning user id.
    pub uid: u32,
    /// Owning group id.
    pub gid: u32,
    /// Raw Unix mode bits (type + permission + setuid/setgid/sticky).
    pub mode: u32,
    /// Whether this inode is a directory.
    pub is_dir: bool,
}

/// The contents of an [`InodeStat`].
#[verifier::ext_equal]
pub struct StatView {
    /// Absolute path of the inode.
    pub path: Seq<char>,
    /// Owning user id.
    pub uid: u32,
    /// Owning group id.
    pub gid: u32,
    /// Raw Unix mode bits.
    pub mode: u32,
    /// Whether this inode is a directory.
    pub is_dir: bool,
}

impl View for InodeStat {
    type V = StatView;

    open spec fn view(&self) -> StatView {
        StatView {
            path: self.path@,
            uid: self.uid,
            gid: self.gid,
            mode: self.mode,
            is_dir: self.is_dir,
        }
    }
}

impl Clone for InodeStat {
    fn clone(&self) -> (r: Self)
        ensures
            r@ == self@,
    {
        InodeStat {
            path: self.path.clone(),
            uid: self.uid,
            gid: self.gid,
            mode: self.mode,
            is_dir: self.is_dir,
        }
    }
}

/// The contents of a list of stats.
pub open spec fn stat_views(v: Seq<InodeStat>) -> Seq<StatView> {
    v.map_values(|s: InodeStat| s@)
}

/// The paths of a list of stats.
pub open spec fn paths_of(v: Seq<StatView>) -> Seq<Seq<char>> {
    v.map_values(|s: StatView| s.path)
}

/// A mount point the walk did not descend, recorded so that the operator knows that
/// coverage was trimmed.
#[derive(Debug, PartialEq, Eq)]
pub struct SkippedMount {
    /// Absolute mount-point path that was not descended.
    pub path: String,
    /// The filesystem type that caused the skip (a network or pseudo type).
    pub fstype: String,
}

/// The contents of a [`SkippedMount`].
#[verifier::ext_equal]
pub struct SkipView {
    /// The mount-point path.
    pub path: Seq<char>,
    /// The filesystem type.
    pub fstype: Seq<char>,
}

impl View for SkippedMount {
    type V = SkipView;

    open spec fn view(&self) -> SkipView {
        SkipView { path: self.path@, fstype: self.fstype@ }
    }
}

impl Clone for SkippedMount {
    fn clone(&self) -> (r: Self)
        ensures
            r@ == self@,
    {
        SkippedMount { path: self.path.clone(), fstype: self.fstype.clone() }
    }
}

/// The contents of a list of skipped mounts.
pub open spec fn skip_views(v: Seq<SkippedMount>) -> Seq<SkipView> {
    v.map_values(|s: SkippedMount| s@)
}

/// The result of a walk: the inode stats plus the mounts that were skipped.
#[derive(Debug, Clone, PartialEq, Eq)]
pub struct WalkOutcome {
    /// One stat record per reachable inode.
    pub stats: Vec<InodeStat>,
    /// Mounts the walk did not descend (network/pseudo), for the coverage notice.
    pub skipped_mounts: Vec<SkippedMount>,
}

/// The contents of a [`WalkOutcome`].
#[verifier::ext_equal]
pub struct WalkView {
    /// The inode stats.
    pub stats: Seq<StatView>,
    /// The skipped mounts.
    pub skipped: Seq<SkipView>,
}

impl View for WalkOutcome {
    type V = WalkView;

    open spec fn view(&self) -> WalkView {
        WalkView {
            stats: stat_views(self.stats@),
            skipped: skip_views(self.skipped_mounts@),
        }
    }
}

impl Default for WalkOutcome {
    /// An outcome of nothing.
    fn default() -> (r: Self)
        ensures
            r@ == (WalkView { stats: seq![], skipped: seq![] }),
    {
        let r = WalkOutcome { stats: Vec::new(), skipped_mounts: Vec::new() };
        proof {
            assert(r@.stats =~= Seq::<StatView>::empty());
            assert(r@.skipped =~= Seq::<SkipView>::empty());
        }
        r
    }
}

/// The contents of what a walk returns.
pub open spec fn walk_view(r: Result<WalkOutcome, ExposureError>) -> Result<WalkView, ErrorView> {
    match r {
        Ok(w) => Ok(w@),
        Err(e) => Err(e@),
    }
}

/// A source of inode stat records for a set of scan roots.
pub trait FsWalker {
    /// The outcomes that a walk of `roots` may have: any, unless an implementor says
    /// otherwise.
    open spec fn may_walk(&self, roots: Seq<Seq<char>>, r: Result<WalkView, ErrorView>) -> bool {
        true
    }

    /// Walk `roots` and return the inode stats plus any skipped mounts.
    ///
    /// An absent root is skipped, and so is an unreadable subtree; only a root that
    /// exists and cannot be stat'd is an error.
    fn walk(&self, roots: &[String]) -> (r: Result<WalkOutcome, ExposureError>)
        ensures
            self.may_walk(text::views(roots@), walk_view(r)),
    ;
}

/// The stats whose path is at or under one of the roots.
pub open spec fn stats_under(stats: Seq<StatView>, roots: Seq<Seq<char>>) -> Seq<StatView>
    decreases stats.len(),
{
    if stats.len() == 0 {
        seq![]
    } else {
        let before = stats_under(stats.drop_last(), roots);
        if catalog::under_some(roots, stats.last().path) {
            before.push(stats.last())
        } else {
            before
        }
    }
}

/// An in-memory [`FsWalker`]: returns the canned stats that fall at or under one of the
/// requested roots.
#[derive(Debug, Clone)]
pub struct FakeWalker {
    /// The canned stats.
    pub stats: Vec<InodeStat>,
}

impl FakeWalker {
    /// An empty walker.
    pub fn new() -> (r: Self)
        ensures
            stat_views(r.stats@) == Seq::<StatView>::empty(),
    {
        let r = FakeWalker { stats: Vec::new() };
        proof {
            assert(stat_views(r.stats@) =~= Seq::<StatView>::empty());
        }
        r
    }

    /// Add one inode stat to the filesystem.
    pub fn with(self, stat: InodeStat) -> (r: Self)
        ensures
            stat_views(r.stats@) == stat_views(self.stats@).push(stat@),
    {
        let mut stats = self.stats;
        let ghost was = stat_views(stats@);
        let ghost s = stat@;
        stats.push(stat);
        proof {
            assert(stat_views(stats@) =~= was.push(s));
        }
        FakeWalker { stats }
    }
}

impl FsWalker for FakeWalker {
    open spec fn may_walk(&self, roots: Seq<Seq<char>>, r: Result<WalkView, ErrorView>) -> bool {
        r == Ok::<WalkView, ErrorView>(
            WalkView { stats: stats_under(stat_views(self.stats@), roots), skipped: seq![] },
        )
    }

    fn walk(&self, roots: &[String]) -> (r: Result<WalkOutcome, ExposureError>) {
        let ghost all = stat_views(self.stats@);
        let mut out = WalkOutcome::default();
        let mut i: usize = 0;
        while i < self.stats.len()
            invariant
                all == stat_views(self.stats@),
                i <= self.stats@.len(),
                out@ == (WalkView {
                    stats: stats_under(all.take(i as int), text::views(roots@)),
                    skipped: seq![],
                }),
            decreases self.stats@.len() - i,
        {
            let stat = &self.stats[i];
            proof {
                assert(all.take(i + 1).drop_last() =~= all.take(i as int));
                assert(all.take(i + 1).last() == stat@);
            }
            if catalog::path_under_some(roots, &stat.path) {
                let ghost was = out@;
                out.stats.push(stat.clone());
                proof {
                    assert(out@.stats =~= was.stats.push(stat@));
                    assert(out@.skipped =~= was.skipped);
                }
            }
            i += 1;
        }
        proof {
            assert(all.take(i as int) =~= all);
        }
        Ok(out)
    }
}

// ---------------------------------------------------------------------------
// The index
// ---------------------------------------------------------------------------

/// The ACL that the last pair for `path` holds.
pub open spec fn last_acl(acls: Seq<acl::FileAclView>, path: Seq<char>) -> Option<
    Seq<acl::EntryView>,
>
    decreases acls.len(),
{
    if acls.len() == 0 {
        None
    } else if acls.last().path == path {
        Some(acls.last().acl)
    } else {
        last_acl(acls.drop_last(), path)
    }
}

/// The ACL stored for `path`: the one read for it, where that is extended.
pub open spec fn stored_acl(acls: Seq<acl::FileAclView>, path: Seq<char>) -> Option<
    Seq<acl::EntryView>,
> {
    match last_acl(acls, path) {
        Some(a) => if acl::extended(a) {
            Some(a)
        } else {
            None
        },
        None => None,
    }
}

/// The record of the `i`-th stat.
pub open spec fn record_of(
    stats: Seq<StatView>,
    acls: Seq<acl::FileAclView>,
    secrets: Seq<Seq<char>>,
    i: int,
) -> RecordView {
    RecordView {
        path: stats[i].path,
        uid: stats[i].uid,
        gid: stats[i].gid,
        mode: stats[i].mode,
        acl: stored_acl(acls, stats[i].path),
        class: taxonomy::class_of(secrets, stats[i].path, stats[i].mode),
    }
}

/// The records of a walk with the ACLs that were read, in walk order.
pub open spec fn records_of(
    stats: Seq<StatView>,
    acls: Seq<acl::FileAclView>,
    secrets: Seq<Seq<char>>,
) -> Seq<RecordView> {
    Seq::new(stats.len(), |i: int| record_of(stats, acls, secrets, i))
}

/// The position of the last record with this path, or -1.
pub open spec fn last_record(records: Seq<RecordView>, path: Seq<char>) -> int
    decreases records.len(),
{
    if records.len() == 0 {
        -1
    } else if records.last().path == path {
        records.len() - 1
    } else {
        last_record(records.drop_last(), path)
    }
}

/// A permission index: the inode records from one read-only walk, with by-path lookup,
/// plus the mounts skipped during the walk.
pub struct PermissionIndex {
    records: Vec<InodeRecord>,
    by_path: StringHashMap<usize>,
    skipped_mounts: Vec<SkippedMount>,
}

/// Whether `by_path` gives the last position of each path.
spec fn indexes(by_path: Map<Seq<char>, usize>, records: Seq<RecordView>) -> bool {
    forall|p: Seq<char>|
        {
            &&& (#[trigger] by_path.contains_key(p)) == (last_record(records, p) >= 0)
            &&& by_path.contains_key(p) ==> by_path[p] == last_record(records, p)
        }
}

/// The last position of a path is one that has it.
proof fn lemma_last_record(records: Seq<RecordView>, path: Seq<char>)
    ensures
        -1 <= last_record(records, path) < records.len(),
        last_record(records, path) >= 0 ==> records[last_record(records, path)].path == path,
    decreases records.len(),
{
    if records.len() > 0 && records.last().path != path {
        lemma_last_record(records.drop_last(), path);
    }
}

/// The contents of a lookup.
pub open spec fn opt_record(r: Option<&InodeRecord>) -> Option<RecordView> {
    match r {
        Some(r) => Some(r@),
        None => None,
    }
}

/// The last record with this path.
pub open spec fn record_at(records: Seq<RecordView>, path: Seq<char>) -> Option<RecordView> {
    if last_record(records, path) >= 0 {
        Some(records[last_record(records, path)])
    } else {
        None
    }
}

impl PermissionIndex {
    /// The records, in walk order.
    pub closed spec fn recs(&self) -> Seq<RecordView> {
        record_views(self.records@)
    }

    /// The mounts skipped during the walk.
    pub closed spec fn skips(&self) -> Seq<SkipView> {
        skip_views(self.skipped_mounts@)
    }

    #[verifier::type_invariant]
    spec fn inv(self) -> bool {
        indexes(self.by_path@, self.recs())
    }

    /// Build the index with the built-in classifier.
    ///
    /// The ACLs are read once, with exactly the paths the walker returned; where the walk
    /// fails, none is read.
    pub fn build<W: FsWalker, A: AclSource>(
        walker: &W,
        acl_source: &mut A,
        roots: &[String],
    ) -> (r: Result<Self, ExposureError>)
        ensures
            match r {
                Ok(idx) => exists|w: WalkView, acls: Seq<acl::FileAclView>|
                    walker.may_walk(text::views(roots@), Ok(w)) && old(acl_source).may_read(
                        paths_of(w.stats),
                        acls,
                        *final(acl_source),
                    ) && idx.recs() == #[trigger] records_of(
                        w.stats,
                        acls,
                        text::str_views(taxonomy::DEFAULT_SECRET_GLOBS@),
                    ) && #[trigger] w.skipped == idx.skips(),
                Err(e) => walker.may_walk(text::views(roots@), Err(e@)) && *final(acl_source)
                    == *old(acl_source),
            },
    {
        PermissionIndex::build_with(walker, acl_source, roots, &Classifier::default())
    }

    /// Build the index: walk `roots`, read the ACL of every walked inode, and assemble
    /// one record per inode, classified by `classifier`.
    ///
    /// The ACLs are read once, with exactly the paths the walker returned, and best-effort;
    /// where the walk fails, none is read. An inode whose ACL is only trivial stores no
    /// ACL.
    pub fn build_with<W: FsWalker, A: AclSource>(
        walker: &W,
        acl_source: &mut A,
        roots: &[String],
        classifier: &Classifier,
    ) -> (r: Result<Self, ExposureError>)
        ensures
            match r {
                Ok(idx) => exists|w: WalkView, acls: Seq<acl::FileAclView>|
                    walker.may_walk(text::views(roots@), Ok(w)) && old(acl_source).may_read(
                        paths_of(w.stats),
                        acls,
                        *final(acl_source),
                    ) && idx.recs() == #[trigger] records_of(w.stats, acls, classifier@)
                        && #[trigger] w.skipped == idx.skips(),
                Err(e) => walker.may_walk(text::views(roots@), Err(e@)) && *final(acl_source)
                    == *old(acl_source),
            },
    {
        match walker.walk(roots) {
            Err(e) => Err(e),
            Ok(outcome) => {
                let paths = stat_paths(&outcome.stats);
                let acls = acl_source.read_acls(paths.as_slice());
                let ghost w = outcome@;
                let ghost a = acl::file_acls(acls@);
                let idx = PermissionIndex::assemble(outcome, acls, classifier);
                proof {
                    assert(idx.recs() == records_of(w.stats, a, classifier@));
                    assert(w.skipped == idx.skips());
                }
                Ok(idx)
            },
        }
    }

    /// Assemble the index of a walk from the ACLs that were read for it.
    pub fn assemble(
        outcome: WalkOutcome,
        acls: Vec<(String, AclEntries)>,
        classifier: &Classifier,
    ) -> (r: Self)
        ensures
            r.recs() == records_of(outcome@.stats, acl::file_acls(acls@), classifier@),
            r.skips() == outcome@.skipped,
    {
        let ghost stats = outcome@.stats;
        let ghost pairs = acl::file_acls(acls@);
        let acl_map = acl_table(&acls);
        let mut records: Vec<InodeRecord> = Vec::new();
        let mut by_path: StringHashMap<usize> = StringHashMap::new();
        let mut i: usize = 0;
        proof {
            assert(record_views(records@) =~= records_of(stats, pairs, classifier@).take(0));
        }
        while i < outcome.stats.len()
            invariant
                stats == stat_views(outcome.stats@),
                i <= outcome.stats@.len(),
                record_views(records@) == records_of(stats, pairs, classifier@).take(i as int),
                indexes(by_path@, record_views(records@)),
                forall|p: Seq<char>| #[trigger]
                    acl_map@.contains_key(p) == last_acl(pairs, p) is Some,
                forall|p: Seq<char>| #[trigger]
                    acl_map@.contains_key(p) ==> Some(acl_map@[p]@) == last_acl(pairs, p),
            decreases outcome.stats@.len() - i,
        {
            let stat = &outcome.stats[i];
            proof {
                assert(stats[i as int] == stat@);
            }
            let acl = match acl_map.get(&stat.path) {
                Some(a) => if a.is_extended() {
                    Some(a.clone())
                } else {
                    None
                },
                None => None,
            };
            let class = classifier.classify(&stat.path, stat.mode);
            by_path.insert(stat.path.clone(), i);
            let record = InodeRecord {
                path: stat.path.clone(),
                uid: stat.uid,
                gid: stat.gid,
                mode: stat.mode,
                acl,
                class,
            };
            let ghost was = record_views(records@);
            let ghost rec = record@;
            records.push(record);
            proof {
                assert(record_views(records@) =~= was.push(rec));
                assert(was.push(rec).drop_last() =~= was);
                assert(rec =~= record_of(stats, pairs, classifier@, i as int));
                assert(was.push(rec) =~= records_of(stats, pairs, classifier@).take(i + 1));
                assert(was.len() == i);
            }
            i += 1;
        }
        proof {
            assert(records_of(stats, pairs, classifier@).take(i as int) =~= records_of(
                stats,
                pairs,
                classifier@,
            ));
        }
        PermissionIndex { records, by_path, skipped_mounts: outcome.skipped_mounts }
    }

    /// The indexed inode records, in walk order.
    pub fn records(&self) -> (r: &[InodeRecord])
        ensures
            record_views(r@) == self.recs(),
    {
        self.records.as_slice()
    }

    /// The record for an exact path, if indexed.
    pub fn get(&self, path: &str) -> (r: Option<&InodeRecord>)
        ensures
            opt_record(r) == record_at(self.recs(), path@),
    {
        proof {
            use_type_invariant(self);
            lemma_last_record(self.recs(), path@);
        }
        match self.by_path.get(path) {
            Some(i) => Some(&self.records[*i]),
            None => None,
        }
    }

    /// The mounts skipped during the walk (network/pseudo).
    pub fn skipped_mounts(&self) -> (r: &[SkippedMount])
        ensures
            skip_views(r@) == self.skips(),
    {
        self.skipped_mounts.as_slice()
    }

    /// The number of indexed inodes.
    pub fn len(&self) -> (n: usize)
        ensures
            n == self.recs().len(),
    {
        self.records.len()
    }

    /// Whether the index is empty.
    pub fn is_empty(&self) -> (r: bool)
        ensures
            r == (self.recs().len() == 0),
    {
        self.records.len() == 0
    }
}

/// The paths of a list of stats.
fn stat_paths(stats: &Vec<InodeStat>) -> (r: Vec<String>)
    ensures
        text::views(r@) == paths_of(stat_views(stats@)),
{
    let mut r: Vec<String> = Vec::new();
    let mut i: usize = 0;
    while i < stats.len()
        invariant
            i <= stats@.len(),
            text::views(r@) == paths_of(stat_views(stats@)).take(i as int),
        decreases stats@.len() - i,
    {
        let ghost was = text::views(r@);
        r.push(stats[i].path.clone());
        i += 1;
        proof {
            assert(text::views(r@) =~= was.push(stats@[i - 1].path@));
            assert(paths_of(stat_views(stats@)).take(i as int) =~= was.push(
                stats@[i - 1].path@,
            ));
        }
    }
    proof {
        assert(paths_of(stat_views(stats@)).take(i as int) =~= paths_of(stat_views(stats@)));
    }
    r
}

/// A table of the ACLs by path, the last one for a path kept.
fn acl_table(acls: &Vec<(String, AclEntries)>) -> (m: StringHashMap<AclEntries>)
    ensures
        forall|p: Seq<char>| #[trigger]
            m@.contains_key(p) == last_acl(acl::file_acls(acls@), p) is Some,
        forall|p: Seq<char>| #[trigger]
            m@.contains_key(p) ==> Some(m@[p]@) == last_acl(acl::file_acls(acls@), p),
{
    let ghost all = acl::file_acls(acls@);
    let mut m: StringHashMap<AclEntries> = StringHashMap::new();
    let mut i: usize = 0;
    while i < acls.len()
        invariant
            all == acl::file_acls(acls@),
            i <= acls@.len(),
            forall|p: Seq<char>| #[trigger]
                m@.contains_key(p) == last_acl(all.take(i as int), p) is Some,
            forall|p: Seq<char>| #[trigger]
                m@.contains_key(p) ==> Some(m@[p]@) == last_acl(all.take(i as int), p),
        decreases acls@.len() - i,
    {
        proof {
            assert(all.take(i + 1).drop_last() =~= all.take(i as int));
            assert(all.take(i + 1).last() == acl::file_acl(acls@[i as int]));
        }
        m.insert(acls[i].0.clone(), acls[i].1.clone());
        i += 1;
    }
    proof {
        assert(all.take(i as int) =~= all);
    }
    m
}

// ---------------------------------------------------------------------------
// Laws
// ---------------------------------------------------------------------------

/// The index holds one record per stat, in order, with the path and mode that the walk
/// saw.
pub proof fn every_stat_is_recorded(
    stats: Seq<StatView>,
    acls: Seq<acl::FileAclView>,
    secrets: Seq<Seq<char>>,
)
    ensures
        records_of(stats, acls, secrets).len() == stats.len(),
        forall|i: int|
            0 <= i < stats.len() ==> {
                let r = #[trigger] records_of(stats, acls, secrets)[i];
                &&& r.path == stats[i].path
                &&& r.uid == stats[i].uid
                &&& r.gid == stats[i].gid
                &&& r.mode == stats[i].mode
            },
{
}

/// Only an extended ACL is stored: a trivial one is no more than the mode.
pub proof fn stored_acls_are_extended(
    stats: Seq<StatView>,
    acls: Seq<acl::FileAclView>,
    secrets: Seq<Seq<char>>,
    i: int,
)
    requires
        0 <= i < stats.len(),
    ensures
        records_of(stats, acls, secrets)[i].acl matches Some(a) ==> acl::extended(a),
{
}

/// A record without an ACL is of an inode for which no extended one was read, and all
/// records of a path have the same ACL.
pub proof fn no_extended_acl_is_lost(
    stats: Seq<StatView>,
    acls: Seq<acl::FileAclView>,
    secrets: Seq<Seq<char>>,
    i: int,
    j: int,
)
    requires
        0 <= i < stats.len(),
        0 <= j < stats.len(),
    ensures
        records_of(stats, acls, secrets)[i].acl is None <==> (last_acl(acls, stats[i].path) matches Some(
            a,
        ) ==> !acl::extended(a)),
        stats[i].path == stats[j].path ==> records_of(stats, acls, secrets)[i].acl == records_of(
            stats,
            acls,
            secrets,
        )[j].acl,
{
}

/// The ACL that counts for a path is the one that was read last for it.
pub proof fn the_last_acl_counts(acls: Seq<acl::FileAclView>, path: Seq<char>)
    ensures
        match last_acl(acls, path) {
            None => forall|i: int| 0 <= i < acls.len() ==> (#[trigger] acls[i]).path != path,
            Some(a) => exists|i: int|
                {
                    &&& 0 <= i < acls.len()
                    &&& (#[trigger] acls[i]).path == path
                    &&& acls[i].acl == a
                    &&& forall|j: int| i < j < acls.len() ==> (#[trigger] acls[j]).path != path
                },
        },
    decreases acls.len(),
{
    if acls.len() > 0 {
        let before = acls.drop_last();
        if acls.last().path == path {
            assert(acls[acls.len() - 1].path == path);
        } else {
            the_last_acl_counts(before, path);
            match last_acl(before, path) {
                None => {
                    assert forall|i: int| 0 <= i < acls.len() implies (#[trigger] acls[i]).path
                        != path by {
                        if i < before.len() {
                            assert(before[i] == acls[i]);
                        }
                    }
                },
                Some(a) => {
                    let i = choose|i: int|
                        {
                            &&& 0 <= i < before.len()
                            &&& (#[trigger] before[i]).path == path
                            &&& before[i].acl == a
                            &&& forall|j: int|
                                i < j < before.len() ==> (#[trigger] before[j]).path != path
                        };
                    assert(acls[i] == before[i]);
                    assert forall|j: int| i < j < acls.len() implies (#[trigger] acls[j]).path
                        != path by {
                        if j < before.len() {
                            assert(before[j] == acls[j]);
                        }
                    }
                },
            }
        }
    }
}

/// A path is looked up in the last record that has it; nothing is found only where none has
/// it.
pub proof fn lookups_give_the_last_record(records: Seq<RecordView>, path: Seq<char>)
    ensures
        match record_at(records, path) {
            None => forall|i: int| 0 <= i < records.len() ==> (#[trigger] records[i]).path != path,
            Some(r) => exists|i: int|
                {
                    &&& 0 <= i < records.len()
                    &&& (#[trigger] records[i]).path == path
                    &&& records[i] == r
                    &&& forall|j: int|
                        i < j < records.len() ==> (#[trigger] records[j]).path != path
                },
        },
{
    lemma_last_record(records, path);
    lemma_last_of_all(records, path);
    if last_record(records, path) >= 0 {
        assert(records[last_record(records, path)].path == path);
    }
}

/// No record after the last with a path has it.
proof fn lemma_last_of_all(records: Seq<RecordView>, path: Seq<char>)
    ensures
        forall|j: int|
            last_record(records, path) < j < records.len() ==> (#[trigger] records[j]).path != path,
    decreases records.len(),
{
    if records.len() > 0 && records.last().path != path {
        let before = records.drop_last();
        lemma_last_of_all(before, path);
        lemma_last_record(records, path);
        assert forall|j: int| last_record(records, path) < j < records.len() implies (
        #[trigger] records[j]).path != path by {
            if j < before.len() {
                assert(before[j] == records[j]);
            }
        }
    }
}

/// A record is classified by its path and mode, and has the ACL that was read for its path
/// where that has an entry of a named user, a named group or the mask.
pub proof fn records_are_classified(
    stats: Seq<StatView>,
    acls: Seq<acl::FileAclView>,
    secrets: Seq<Seq<char>>,
    i: int,
)
    requires
        0 <= i < stats.len(),
    ensures
        records_of(stats, acls, secrets)[i].class == taxonomy::class_of(
            secrets,
            stats[i].path,
            stats[i].mode,
        ),
        last_acl(acls, stats[i].path) matches Some(a) && (exists|k: int|
            {
                &&& 0 <= k < a.len()
                &&& ((#[trigger] a[k]).tag is User || a[k].tag is Group || a[k].tag is Mask)
            }) ==> records_of(stats, acls, secrets)[i].acl == last_acl(acls, stats[i].path),
{
    if let Some(a) = last_acl(acls, stats[i].path) {
        acl::extended_acls_have_more_than_the_mode(a);
    }
}

/// Each stat is looked at for itself, in order.
pub proof fn stats_under_roots_add_up(a: Seq<StatView>, b: Seq<StatView>, roots: Seq<Seq<char>>)
    ensures
        stats_under(Seq::<StatView>::empty(), roots).len() == 0,
        stats_under(a + b, roots) == stats_under(a, roots) + stats_under(b, roots),
    decreases b.len(),
{
    if b.len() == 0 {
        assert(a + b =~= a);
        assert(stats_under(a, roots) + stats_under(b, roots) =~= stats_under(a, roots));
    } else {
        stats_under_roots_add_up(a, b.drop_last(), roots);
        assert((a + b).drop_last() =~= a + b.drop_last());
        assert((a + b).last() == b.last());
        assert(stats_under(a + b, roots) =~= stats_under(a, roots) + stats_under(b, roots));
    }
}

/// A stat is kept exactly where its path is at or under one of the roots.
pub proof fn one_stat_under_a_root(stat: StatView, roots: Seq<Seq<char>>)
    ensures
        (exists|r: int|
            0 <= r < roots.len() && catalog::at_or_under(#[trigger] roots[r], stat.path))
            ==> stats_under(seq![stat], roots) == seq![stat],
        (forall|r: int|
            0 <= r < roots.len() ==> !catalog::at_or_under(#[trigger] roots[r], stat.path))
            ==> stats_under(seq![stat], roots).len() == 0,
{
    reveal_with_fuel(stats_under, 2);
    assert(seq![stat].drop_last() =~= seq![]);
    assert(seq![stat].last() == stat);
    assert(Seq::<StatView>::empty().push(stat) =~= seq![stat]);
}

/// The ACLs are asked for by the paths of the stats, all of them and in order.
pub proof fn every_stat_is_asked_for(stats: Seq<StatView>, i: int)
    requires
        0 <= i < stats.len(),
    ensures
        paths_of(stats).len() == stats.len(),
        paths_of(stats)[i] == stats[i].path,
{
}

} // verus!
