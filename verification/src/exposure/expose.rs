//! Per-principal exposure with intended-baseline subtraction.
//!
//! [`expose`] runs the per-inode pipeline (effective access, reachability, finding
//! assembly) over the whole index for one principal. [`exposure_report`] wraps that
//! with the baseline: for a managed principal it subtracts the account's home and the
//! paths it was granted, so only the *excess* access remains; for any other uid the raw
//! reachability is reported.

use vstd::prelude::*;

use crate::catalog;
use crate::exposure::access;
use crate::exposure::access::Principal;
use crate::exposure::index;
use crate::exposure::index::{PermissionIndex, SkippedMount};
use crate::exposure::reach::Reachability;
use crate::exposure::taxonomy;
use crate::exposure::taxonomy::{Finding, RemediationContext};
use crate::inspect;
use crate::names;
use crate::state::{ManagedAccount, ManagedFileGrant, Registry};
use crate::text;

verus! {

broadcast use vstd::string::group_string_axioms;

/// The caveat attached to every exposure report: the verdict considers only
/// discretionary access control.
pub const DAC_ONLY_NOTE: &'static str = "verdict is DAC-only (mode, owner, POSIX ACL) and is an upper bound: MAC layers (SELinux, AppArmor, PARSEC) may restrict actual access further";

// ---------------------------------------------------------------------------
// The engine
// ---------------------------------------------------------------------------

/// Whether `path` is within the scan roots; no roots impose no filter.
pub open spec fn in_roots(roots: Seq<Seq<char>>, path: Seq<char>) -> bool {
    roots.len() == 0 || catalog::under_some(roots, path)
}

/// The finding that one record makes for a principal.
pub open spec fn exposure_of<C: RemediationContext>(
    rec: index::RecordView,
    p: access::PrincipalView,
    roots: Seq<Seq<char>>,
    reachable: Set<Seq<char>>,
    ctx: &C,
) -> Option<taxonomy::FindingView> {
    if in_roots(roots, rec.path) {
        let e = access::effective_of(rec, p);
        taxonomy::finding_of(
            rec,
            e.access,
            e.via,
            Some(p.name),
            reachable.contains(rec.path),
            ctx,
        )
    } else {
        None
    }
}

/// The findings of the records, in index order.
pub open spec fn exposures<C: RemediationContext>(
    recs: Seq<index::RecordView>,
    p: access::PrincipalView,
    roots: Seq<Seq<char>>,
    reachable: Set<Seq<char>>,
    ctx: &C,
) -> Seq<taxonomy::FindingView>
    decreases recs.len(),
{
    if recs.len() == 0 {
        seq![]
    } else {
        let before = exposures(recs.drop_last(), p, roots, reachable, ctx);
        match exposure_of(recs.last(), p, roots, reachable, ctx) {
            Some(f) => before.push(f),
            None => before,
        }
    }
}

/// Run the exposure engine for `principal` over `index`, returning every reachable,
/// reportable access (before any baseline subtraction).
///
/// `roots` gates the records considered; an empty slice imposes no filter.
pub fn expose<C: RemediationContext>(
    index: &PermissionIndex,
    principal: &Principal,
    roots: &[String],
    reachability: &Reachability,
    ctx: &C,
) -> (findings: Vec<Finding>)
    ensures
        taxonomy::finding_views(findings@) == exposures(
            index.recs(),
            principal@,
            text::views(roots@),
            reachability.paths(),
            ctx,
        ),
{
    let ghost recs = index.recs();
    let ghost rs = text::views(roots@);
    let records = index.records();
    let mut findings: Vec<Finding> = Vec::new();
    let mut i: usize = 0;
    proof {
        assert(taxonomy::finding_views(findings@) =~= exposures(
            recs.take(0),
            principal@,
            rs,
            reachability.paths(),
            ctx,
        ));
    }
    while i < records.len()
        invariant
            recs == index::record_views(records@),
            rs == text::views(roots@),
            i <= records@.len(),
            taxonomy::finding_views(findings@) == exposures(
                recs.take(i as int),
                principal@,
                rs,
                reachability.paths(),
                ctx,
            ),
        decreases records@.len() - i,
    {
        let record = &records[i];
        proof {
            assert(recs.take(i + 1).drop_last() =~= recs.take(i as int));
            assert(recs.take(i + 1).last() == record@);
        }
        if within_roots(&record.path, roots) {
            let eff = access::effective(record, principal);
            let reachable = reachability.is_reachable(&record.path);
            let found = taxonomy::finding_for(
                record,
                eff.access,
                &eff.via,
                Some(principal.name.as_str()),
                reachable,
                ctx,
            );
            match found {
                Some(f) => {
                    let ghost was = taxonomy::finding_views(findings@);
                    let ghost one = f@;
                    findings.push(f);
                    proof {
                        assert(taxonomy::finding_views(findings@) =~= was.push(one));
                    }
                },
                None => {},
            }
        }
        i += 1;
    }
    proof {
        assert(recs.take(i as int) =~= recs);
    }
    findings
}

/// Whether `path` is within the scan roots.
fn within_roots(path: &str, roots: &[String]) -> (r: bool)
    ensures
        r == in_roots(text::views(roots@), path@),
{
    roots.len() == 0 || catalog::path_under_some(roots, path)
}

// ---------------------------------------------------------------------------
// The baseline
// ---------------------------------------------------------------------------

/// A path prefix and whether it covers its whole subtree.
#[verifier::ext_equal]
pub struct PrefixView {
    /// The prefix.
    pub prefix: Seq<char>,
    /// Whether it covers its subtree, or only the exact path.
    pub recursive: bool,
}

impl PrefixView {
    /// Whether the prefix covers `path`.
    pub open spec fn covers(self, path: Seq<char>) -> bool {
        self.prefix == path || (self.recursive && catalog::at_or_under(self.prefix, path))
    }
}

/// The contents of a list of prefixes.
pub open spec fn prefix_views(v: Seq<(String, bool)>) -> Seq<PrefixView> {
    v.map_values(|p: (String, bool)| PrefixView { prefix: p.0@, recursive: p.1 })
}

/// Whether some prefix of the list covers `path`.
pub open spec fn covered_by(prefixes: Seq<PrefixView>, path: Seq<char>) -> bool {
    exists|i: int| 0 <= i < prefixes.len() && (#[trigger] prefixes[i]).covers(path)
}

/// The first prefix of the list that covers `path`.
pub open spec fn first_cover(prefixes: Seq<PrefixView>, path: Seq<char>) -> Option<Seq<char>>
    decreases prefixes.len(),
{
    if prefixes.len() == 0 {
        None
    } else if prefixes[0].covers(path) {
        Some(prefixes[0].prefix)
    } else {
        first_cover(prefixes.skip(1), path)
    }
}

/// A usable baseline prefix: `raw` without trailing slashes, where that is an absolute
/// path other than the filesystem root. Anything else would cover every path.
pub open spec fn baseline_prefix(raw: Seq<char>) -> Option<Seq<char>> {
    let t = text::trim_end_char(raw, '/');
    if catalog::is_absolute(t) {
        Some(t)
    } else {
        None
    }
}

/// The findings whose path the prefixes do not cover.
pub open spec fn uncovered(
    prefixes: Seq<PrefixView>,
    findings: Seq<taxonomy::FindingView>,
) -> Seq<taxonomy::FindingView>
    decreases findings.len(),
{
    if findings.len() == 0 {
        seq![]
    } else {
        let before = uncovered(prefixes, findings.drop_last());
        if covered_by(prefixes, findings.last().path) {
            before
        } else {
            before.push(findings.last())
        }
    }
}

/// Whether a prefix covers a path.
fn prefix_covers(prefix: &str, recursive: bool, path: &str) -> (r: bool)
    ensures
        r == (PrefixView { prefix: prefix@, recursive }).covers(path@),
{
    text::same(prefix, path) || (recursive && catalog::path_at_or_under(prefix, path))
}

/// Normalize and validate a baseline prefix (a home directory or a grant path).
///
/// A degenerate prefix (`""`, `"/"`) is rejected because it would cover every path and
/// silently subtract all excess access.
pub fn valid_baseline_prefix(raw: &str) -> (r: Option<String>)
    ensures
        inspect::opt_text(r) == baseline_prefix(raw@),
{
    let cs = text::chars_of(raw);
    let t = text::trim_back_char(cs.as_slice(), '/');
    if t.len() > 0 && t[0] == '/' {
        Some(text::string_of(t))
    } else {
        None
    }
}

/// The path prefixes a managed principal's access is *supposed* to reach: its home
/// directory and the paths it was granted.
#[derive(Debug, Clone)]
pub struct IntendedBaseline {
    prefixes: Vec<(String, bool)>,
}

impl View for IntendedBaseline {
    type V = Seq<PrefixView>;

    closed spec fn view(&self) -> Seq<PrefixView> {
        prefix_views(self.prefixes@)
    }
}

impl IntendedBaseline {
    /// A baseline without prefixes.
    pub fn new() -> (r: Self)
        ensures
            r@ == Seq::<PrefixView>::empty(),
    {
        let r = IntendedBaseline { prefixes: Vec::new() };
        proof {
            assert(r@ =~= Seq::<PrefixView>::empty());
        }
        r
    }

    /// Whether `path` is covered by the baseline (at or under a recursive prefix, or
    /// equal to a non-recursive one).
    pub fn covers(&self, path: &str) -> (r: bool)
        ensures
            r == covered_by(self@, path@),
    {
        let mut i: usize = 0;
        while i < self.prefixes.len()
            invariant
                i <= self.prefixes@.len(),
                forall|j: int| 0 <= j < i ==> !(#[trigger] self@[j]).covers(path@),
            decreases self.prefixes@.len() - i,
        {
            if prefix_covers(&self.prefixes[i].0, self.prefixes[i].1, path) {
                proof {
                    assert(self@[i as int].covers(path@));
                }
                return true;
            }
            i += 1;
        }
        false
    }

    /// Drop every finding whose path the baseline covers, leaving only excess access.
    pub fn subtract(&self, findings: Vec<Finding>) -> (r: Vec<Finding>)
        ensures
            taxonomy::finding_views(r@) == uncovered(self@, taxonomy::finding_views(findings@)),
    {
        let ghost all = taxonomy::finding_views(findings@);
        let mut rest = findings;
        let mut kept: Vec<Finding> = Vec::new();
        // Taken off the end, so the findings that stay come out in reverse.
        while rest.len() > 0
            invariant
                taxonomy::finding_views(rest@) == all.take(rest@.len() as int),
                rest@.len() <= all.len(),
                uncovered(self@, all) == uncovered(self@, all.take(rest@.len() as int))
                    + taxonomy::finding_views(kept@).reverse(),
            decreases rest@.len(),
        {
            let ghost n = rest@.len() as int;
            let ghost was = taxonomy::finding_views(kept@);
            let f = rest.pop().unwrap();
            let ghost one = f@;
            proof {
                assert(all.take(n).drop_last() =~= all.take(n - 1));
                assert(taxonomy::finding_views(rest@) =~= all.take(n - 1));
                assert(all.take(n).last() == one);
            }
            if !self.covers(&f.path) {
                kept.push(f);
                proof {
                    assert(taxonomy::finding_views(kept@) =~= was.push(one));
                    assert(was.push(one).reverse() =~= seq![one] + was.reverse());
                    assert(uncovered(self@, all) =~= uncovered(self@, all.take(n - 1))
                        + was.push(one).reverse());
                }
            }
        }
        let mut out: Vec<Finding> = Vec::new();
        let ghost back = taxonomy::finding_views(kept@).reverse();
        proof {
            assert(uncovered(self@, all) =~= back);
        }
        while kept.len() > 0
            invariant
                back == taxonomy::finding_views(out@) + taxonomy::finding_views(kept@).reverse(),
            decreases kept@.len(),
        {
            let ghost was = taxonomy::finding_views(out@);
            let ghost left = taxonomy::finding_views(kept@);
            let f = kept.pop().unwrap();
            let ghost one = f@;
            out.push(f);
            proof {
                assert(left =~= taxonomy::finding_views(kept@).push(one));
                assert(taxonomy::finding_views(out@) =~= was.push(one));
                assert(back =~= taxonomy::finding_views(out@) + taxonomy::finding_views(
                    kept@,
                ).reverse());
            }
        }
        proof {
            assert(taxonomy::finding_views(out@) =~= back);
        }
        out
    }

    /// Whether the baseline has no covered prefixes.
    pub fn is_empty(&self) -> (r: bool)
        ensures
            r == (self@.len() == 0),
    {
        self.prefixes.len() == 0
    }
}

// ---------------------------------------------------------------------------
// The managed context
// ---------------------------------------------------------------------------

/// How well an account record matches a principal: by name and uid, by name alone, by
/// uid alone.
pub open spec fn binds(a: ManagedAccount, p: access::PrincipalView, level: nat) -> bool {
    if level == 0 {
        a.name@ == p.name && a.uid == p.uid
    } else if level == 1 {
        a.name@ == p.name
    } else {
        a.uid == p.uid
    }
}

/// The first account, in name order, that matches a principal this well.
pub open spec fn first_bound(
    accounts: Seq<(Seq<char>, ManagedAccount)>,
    p: access::PrincipalView,
    level: nat,
) -> Option<ManagedAccount>
    decreases accounts.len(),
{
    if accounts.len() == 0 {
        None
    } else if binds(accounts[0].1, p, level) {
        Some(accounts[0].1)
    } else {
        first_bound(accounts.skip(1), p, level)
    }
}

/// The account that a principal is bound to: the best match, so that a uid that some
/// other account happens to have never outweighs the principal's own name.
pub open spec fn bound_account(
    accounts: Seq<(Seq<char>, ManagedAccount)>,
    p: access::PrincipalView,
) -> Option<ManagedAccount> {
    match first_bound(accounts, p, 0) {
        Some(a) => Some(a),
        None => match first_bound(accounts, p, 1) {
            Some(a) => Some(a),
            None => first_bound(accounts, p, 2),
        },
    }
}

/// The usable prefixes among the first `n` recorded grants.
pub open spec fn grant_prefixes_upto(grants: Seq<ManagedFileGrant>, n: nat) -> Seq<PrefixView>
    decreases n,
{
    if n == 0 {
        seq![]
    } else {
        let before = grant_prefixes_upto(grants, (n - 1) as nat);
        match baseline_prefix(grants[n - 1].path@) {
            Some(t) => before.push(
                PrefixView { prefix: t, recursive: grants[n - 1].recursive },
            ),
            None => before,
        }
    }
}

/// The grant prefixes of a bound account.
pub open spec fn account_prefixes(a: Option<ManagedAccount>) -> Seq<PrefixView> {
    match a {
        Some(a) => grant_prefixes_upto(a.file_grants@, a.file_grants@.len()),
        None => seq![],
    }
}

/// The baseline prefix of a home directory, where it is usable.
pub open spec fn home_prefix(home: Option<Seq<char>>) -> Seq<PrefixView> {
    match home {
        Some(h) => match baseline_prefix(h) {
            Some(t) => seq![PrefixView { prefix: t, recursive: true }],
            None => seq![],
        },
        None => seq![],
    }
}

/// What a managed context knows.
#[verifier::ext_equal]
pub struct ContextView {
    /// Whether the principal is managed.
    pub managed: bool,
    /// The intended baseline.
    pub baseline: Seq<PrefixView>,
    /// The granted prefixes.
    pub grants: Seq<PrefixView>,
    /// The managed groups.
    pub groups: Seq<Seq<char>>,
}

/// The context of a principal.
pub open spec fn principal_context(reg: Registry, p: access::PrincipalView) -> ContextView {
    let account = bound_account(reg.accounts.seq(), p);
    let grants = account_prefixes(account);
    ContextView {
        managed: account is Some,
        baseline: if account is Some {
            grants + home_prefix(p.home)
        } else {
            grants
        },
        grants,
        groups: names::keys_of(reg.groups.seq()),
    }
}

/// The [`RemediationContext`] and intended-baseline source built from the managed
/// registry for one principal.
#[derive(Debug, Clone)]
pub struct ManagedContext {
    managed: bool,
    baseline: IntendedBaseline,
    grants: Vec<(String, bool)>,
    managed_groups: Vec<String>,
}

impl View for ManagedContext {
    type V = ContextView;

    closed spec fn view(&self) -> ContextView {
        ContextView {
            managed: self.managed,
            baseline: self.baseline@,
            grants: prefix_views(self.grants@),
            groups: text::views(self.managed_groups@),
        }
    }
}

impl ManagedContext {
    /// Build the context for `principal` from the managed registry.
    ///
    /// The principal is managed when an account in the registry matches its name or
    /// uid. For a managed principal the baseline is its home plus its recorded file
    /// grants; for any other the baseline is empty.
    pub fn for_principal(registry: &Registry, principal: &Principal) -> (r: Self)
        ensures
            r@ == principal_context(*registry, principal@),
    {
        let account = match find_bound(registry, principal, 0) {
            Some(a) => Some(a),
            None => match find_bound(registry, principal, 1) {
                Some(a) => Some(a),
                None => find_bound(registry, principal, 2),
            },
        };
        let (managed, grants, mut prefixes) = match account {
            Some(a) => (true, usable_prefixes(&a.file_grants), usable_prefixes(&a.file_grants)),
            None => {
                let none: Vec<(String, bool)> = Vec::new();
                proof {
                    assert(prefix_views(none@) =~= Seq::<PrefixView>::empty());
                }
                (false, none, Vec::new())
            },
        };
        let ghost granted = prefix_views(grants@);
        proof {
            assert(prefix_views(prefixes@) =~= granted);
        }
        if managed {
            match &principal.home {
                Some(home) => {
                    match valid_baseline_prefix(home) {
                        Some(prefix) => {
                            let ghost one = PrefixView { prefix: prefix@, recursive: true };
                            prefixes.push((prefix, true));
                            proof {
                                assert(prefix_views(prefixes@) =~= granted.push(one));
                                assert(granted.push(one) =~= granted + seq![one]);
                            }
                        },
                        None => {
                            proof {
                                assert(granted =~= granted + Seq::<PrefixView>::empty());
                            }
                        },
                    }
                },
                None => {
                    proof {
                        assert(granted =~= granted + Seq::<PrefixView>::empty());
                    }
                },
            }
        }
        ManagedContext {
            managed,
            baseline: IntendedBaseline { prefixes },
            grants,
            managed_groups: group_names(registry),
        }
    }

    /// A principal-independent context for the global posture map: no account binding
    /// and no baseline, but the managed groups are known.
    pub fn global(registry: &Registry) -> (r: Self)
        ensures
            r@ == (ContextView {
                managed: false,
                baseline: seq![],
                grants: seq![],
                groups: names::keys_of(registry.groups.seq()),
            }),
    {
        let grants: Vec<(String, bool)> = Vec::new();
        proof {
            assert(prefix_views(grants@) =~= Seq::<PrefixView>::empty());
        }
        ManagedContext {
            managed: false,
            baseline: IntendedBaseline::new(),
            grants,
            managed_groups: group_names(registry),
        }
    }

    /// Whether the principal is managed (and so subject to baseline subtraction).
    pub fn is_managed(&self) -> (r: bool)
        ensures
            r == self@.managed,
    {
        self.managed
    }

    /// The intended baseline (home and granted paths) for the principal.
    pub fn baseline(&self) -> (r: &IntendedBaseline)
        ensures
            r@ == self@.baseline,
    {
        &self.baseline
    }
}

/// The descriptor of the grant on a prefix.
pub open spec fn grant_descriptor(prefix: Option<Seq<char>>) -> Option<Seq<char>> {
    match prefix {
        Some(t) => Some("file-access grant on "@ + t),
        None => None,
    }
}

impl RemediationContext for ManagedContext {
    open spec fn manages(&self, group: Seq<char>) -> bool {
        text::listed(self@.groups, group)
    }

    open spec fn grant_over(&self, path: Seq<char>) -> Option<Seq<char>> {
        grant_descriptor(first_cover(self@.grants, path))
    }

    fn is_managed_group(&self, group: &str) -> (r: bool) {
        text::in_list(self.managed_groups.as_slice(), group)
    }

    fn covering_grant(&self, path: &str) -> (r: Option<String>) {
        let ghost all = self@.grants;
        let mut i: usize = 0;
        proof {
            assert(all.skip(0) =~= all);
        }
        while i < self.grants.len()
            invariant
                all == prefix_views(self.grants@),
                i <= self.grants@.len(),
                first_cover(all, path@) == first_cover(all.skip(i as int), path@),
            decreases self.grants@.len() - i,
        {
            proof {
                assert(all.skip(i as int).skip(1) =~= all.skip(i + 1));
            }
            if prefix_covers(&self.grants[i].0, self.grants[i].1, path) {
                return Some(text::join2("file-access grant on ", &self.grants[i].0));
            }
            i += 1;
        }
        None
    }
}

/// The first account that matches the principal at this level.
fn find_bound<'a>(registry: &'a Registry, principal: &Principal, level: u32) -> (r: Option<
    &'a ManagedAccount,
>)
    ensures
        match r {
            Some(a) => first_bound(registry.accounts.seq(), principal@, level as nat) == Some(*a),
            None => first_bound(registry.accounts.seq(), principal@, level as nat) is None,
        },
{
    let ghost all = registry.accounts.seq();
    let n = registry.accounts.len();
    let mut i: usize = 0;
    proof {
        assert(all.skip(0) =~= all);
    }
    while i < n
        invariant
            all == registry.accounts.seq(),
            n == all.len(),
            i <= n,
            first_bound(all, principal@, level as nat) == first_bound(
                all.skip(i as int),
                principal@,
                level as nat,
            ),
        decreases n - i,
    {
        proof {
            assert(all.skip(i as int).skip(1) =~= all.skip(i + 1));
        }
        let a = registry.accounts.value_at(i);
        let by_name = text::same(&a.name, &principal.name);
        let by_uid = a.uid == principal.uid;
        if (level == 0 && by_name && by_uid) || (level == 1 && by_name) || (level > 1 && by_uid) {
            return Some(a);
        }
        i += 1;
    }
    None
}

/// The usable prefixes of recorded grants.
fn usable_prefixes(grants: &Vec<ManagedFileGrant>) -> (r: Vec<(String, bool)>)
    ensures
        prefix_views(r@) == grant_prefixes_upto(grants@, grants@.len()),
{
    let mut r: Vec<(String, bool)> = Vec::new();
    let mut i: usize = 0;
    proof {
        assert(prefix_views(r@) =~= Seq::<PrefixView>::empty());
    }
    while i < grants.len()
        invariant
            i <= grants@.len(),
            prefix_views(r@) == grant_prefixes_upto(grants@, i as nat),
        decreases grants@.len() - i,
    {
        match valid_baseline_prefix(&grants[i].path) {
            Some(prefix) => {
                let ghost was = prefix_views(r@);
                let ghost one = PrefixView {
                    prefix: prefix@,
                    recursive: grants@[i as int].recursive,
                };
                r.push((prefix, grants[i].recursive));
                proof {
                    assert(prefix_views(r@) =~= was.push(one));
                }
            },
            None => {},
        }
        i += 1;
    }
    r
}

/// The names of the managed groups.
fn group_names(registry: &Registry) -> (r: Vec<String>)
    ensures
        text::views(r@) == names::keys_of(registry.groups.seq()),
{
    let ghost all = names::keys_of(registry.groups.seq());
    let n = registry.groups.len();
    let mut r: Vec<String> = Vec::new();
    let mut i: usize = 0;
    while i < n
        invariant
            all == names::keys_of(registry.groups.seq()),
            n == all.len(),
            i <= n,
            text::views(r@) == all.take(i as int),
        decreases n - i,
    {
        let ghost was = text::views(r@);
        let name = registry.groups.key_at(i);
        r.push(name.clone());
        i += 1;
        proof {
            assert(text::views(r@) =~= was.push(name@));
            assert(all.take(i as int) =~= was.push(name@));
        }
    }
    proof {
        assert(all.take(i as int) =~= all);
    }
    r
}

// ---------------------------------------------------------------------------
// The report
// ---------------------------------------------------------------------------

/// A per-principal exposure report.
#[derive(Debug, Clone)]
pub struct ExposureReport {
    /// The principal the report is for.
    pub principal: String,
    /// Whether the principal is managed (baseline subtraction applied).
    pub managed: bool,
    /// The findings: excess access for a managed principal, raw reachability otherwise.
    pub findings: Vec<Finding>,
    /// The DAC-only upper-bound caveat ([`DAC_ONLY_NOTE`]).
    pub dac_only_note: &'static str,
    /// Mounts the walk did not descend.
    pub skipped_mounts: Vec<SkippedMount>,
}

/// The findings of the report on a principal.
pub open spec fn reported(
    recs: Seq<index::RecordView>,
    p: access::PrincipalView,
    roots: Seq<Seq<char>>,
    reachable: Set<Seq<char>>,
    ctx: &ManagedContext,
) -> Seq<taxonomy::FindingView> {
    let raw = exposures(recs, p, roots, reachable, ctx);
    if ctx@.managed {
        uncovered(ctx@.baseline, raw)
    } else {
        raw
    }
}

/// Produce the full exposure report for `principal`: run [`expose`], and for a managed
/// principal subtract the intended baseline so only excess access remains.
pub fn exposure_report(
    index: &PermissionIndex,
    principal: &Principal,
    roots: &[String],
    reachability: &Reachability,
    registry: &Registry,
) -> (r: ExposureReport)
    ensures
        r.principal@ == principal.name@,
        r.managed == bound_account(registry.accounts.seq(), principal@) is Some,
        exists|ctx: ManagedContext| #[trigger]
            ctx@ == principal_context(*registry, principal@) && taxonomy::finding_views(
                r.findings@,
            ) == reported(
                index.recs(),
                principal@,
                text::views(roots@),
                reachability.paths(),
                &ctx,
            ),
        r.dac_only_note@ == DAC_ONLY_NOTE@,
        index::skip_views(r.skipped_mounts@) == index.skips(),
{
    let ctx = ManagedContext::for_principal(registry, principal);
    let raw = expose(index, principal, roots, reachability, &ctx);
    let findings = if ctx.is_managed() {
        ctx.baseline().subtract(raw)
    } else {
        raw
    };
    proof {
        assert(ctx@ == principal_context(*registry, principal@));
    }
    ExposureReport {
        principal: principal.name.clone(),
        managed: ctx.is_managed(),
        findings,
        dac_only_note: DAC_ONLY_NOTE,
        skipped_mounts: copy_skips(index.skipped_mounts()),
    }
}

/// A copy of a list of skipped mounts.
fn copy_skips(v: &[SkippedMount]) -> (r: Vec<SkippedMount>)
    ensures
        index::skip_views(r@) == index::skip_views(v@),
{
    let ghost all = index::skip_views(v@);
    let mut r: Vec<SkippedMount> = Vec::new();
    let mut i: usize = 0;
    while i < v.len()
        invariant
            all == index::skip_views(v@),
            i <= v@.len(),
            index::skip_views(r@) == all.take(i as int),
        decreases v@.len() - i,
    {
        let ghost was = index::skip_views(r@);
        r.push(v[i].clone());
        i += 1;
        proof {
            assert(index::skip_views(r@) =~= was.push(v@[i - 1]@));
            assert(all.take(i as int) =~= was.push(v@[i - 1]@));
        }
    }
    proof {
        assert(all.take(i as int) =~= all);
    }
    r
}

// ---------------------------------------------------------------------------
// Laws
// ---------------------------------------------------------------------------

/// Every finding is on an indexed inode under the roots that the principal reaches, with
/// the access that it has there: what it does not reach is never a finding.
pub proof fn findings_are_on_reached_inodes<C: RemediationContext>(
    recs: Seq<index::RecordView>,
    p: access::PrincipalView,
    roots: Seq<Seq<char>>,
    reachable: Set<Seq<char>>,
    ctx: &C,
    i: int,
)
    requires
        0 <= i < exposures(recs, p, roots, reachable, ctx).len(),
    ensures
        exists|k: int|
            {
                let f = exposures(recs, p, roots, reachable, ctx)[i];
                &&& 0 <= k < recs.len()
                &&& (#[trigger] recs[k]).path == f.path
                &&& in_roots(roots, f.path)
                &&& reachable.contains(f.path)
                &&& f.principal == Some(p.name)
                &&& f.access == access::effective_of(recs[k], p).access
                &&& f.why == access::effective_of(recs[k], p).via
            },
    decreases recs.len(),
{
    let last = recs.len() - 1;
    let before = recs.drop_last();
    let fs = exposures(before, p, roots, reachable, ctx);
    if i < fs.len() {
        findings_are_on_reached_inodes(before, p, roots, reachable, ctx, i);
        let k = choose|k: int|
            {
                let f = fs[i];
                &&& 0 <= k < before.len()
                &&& (#[trigger] before[k]).path == f.path
                &&& in_roots(roots, f.path)
                &&& reachable.contains(f.path)
                &&& f.principal == Some(p.name)
                &&& f.access == access::effective_of(before[k], p).access
                &&& f.why == access::effective_of(before[k], p).via
            };
        assert(recs[k] == before[k]);
    } else {
        assert(recs[last] == recs.last());
    }
}

/// Whether a finding is about an inode, and about the risk that the principal's access to
/// it is.
pub open spec fn speaks_of(
    f: taxonomy::FindingView,
    rec: index::RecordView,
    p: access::PrincipalView,
) -> bool {
    &&& f.path == rec.path
    &&& f.class == rec.class
    &&& taxonomy::risk_of(access::effective_of(rec, p).access, rec.class) == Some(f.risk)
}

/// Nothing hides: an indexed inode under the roots that the principal reaches, with an
/// access that is a risk on its class, is a finding.
pub proof fn reached_risks_are_findings<C: RemediationContext>(
    recs: Seq<index::RecordView>,
    p: access::PrincipalView,
    roots: Seq<Seq<char>>,
    reachable: Set<Seq<char>>,
    ctx: &C,
    k: int,
)
    requires
        0 <= k < recs.len(),
        in_roots(roots, recs[k].path),
        reachable.contains(recs[k].path),
        taxonomy::risk_of(access::effective_of(recs[k], p).access, recs[k].class) is Some,
    ensures
        exists|i: int|
            0 <= i < exposures(recs, p, roots, reachable, ctx).len() && speaks_of(
                #[trigger] exposures(recs, p, roots, reachable, ctx)[i],
                recs[k],
                p,
            ),
    decreases recs.len(),
{
    let before = recs.drop_last();
    let fs = exposures(recs, p, roots, reachable, ctx);
    let was = exposures(before, p, roots, reachable, ctx);
    if k < before.len() {
        assert(before[k] == recs[k]);
        reached_risks_are_findings(before, p, roots, reachable, ctx, k);
        let i = choose|i: int| 0 <= i < was.len() && speaks_of(#[trigger] was[i], recs[k], p);
        assert(fs[i] == was[i]);
    } else {
        assert(speaks_of(fs[was.len() as int], recs[k], p));
    }
}

/// What subtraction leaves is what the baseline does not cover, and all of it: a finding
/// outside the baseline is never lost, and one inside it never stays.
pub proof fn subtraction_keeps_the_excess(
    prefixes: Seq<PrefixView>,
    findings: Seq<taxonomy::FindingView>,
    f: taxonomy::FindingView,
)
    ensures
        uncovered(prefixes, findings).contains(f) <==> findings.contains(f) && !covered_by(
            prefixes,
            f.path,
        ),
    decreases findings.len(),
{
    if findings.len() > 0 {
        let before = findings.drop_last();
        let last = findings.last();
        subtraction_keeps_the_excess(prefixes, before, f);
        assert(findings =~= before.push(last));
        lemma_contains_push(before, last, f);
        lemma_contains_push(uncovered(prefixes, before), last, f);
    }
}

/// A list with one more holds what it held, and that.
proof fn lemma_contains_push(
    list: Seq<taxonomy::FindingView>,
    last: taxonomy::FindingView,
    f: taxonomy::FindingView,
)
    ensures
        list.push(last).contains(f) <==> list.contains(f) || f == last,
{
    let more = list.push(last);
    if list.contains(f) {
        let k = choose|k: int| 0 <= k < list.len() && list[k] == f;
        assert(more[k] == f);
    }
    if f == last {
        assert(more[list.len() as int] == f);
    }
    if more.contains(f) && f != last {
        let k = choose|k: int| 0 <= k < more.len() && more[k] == f;
        assert(list[k] == f);
    }
}

/// A report on a managed principal is the raw one without what the account was meant to
/// have, and no less; without a managed account it is the raw one.
pub proof fn managed_reports_hold_only_the_excess(
    recs: Seq<index::RecordView>,
    p: access::PrincipalView,
    roots: Seq<Seq<char>>,
    reachable: Set<Seq<char>>,
    ctx: &ManagedContext,
    f: taxonomy::FindingView,
)
    ensures
        reported(recs, p, roots, reachable, ctx).contains(f) <==> exposures(
            recs,
            p,
            roots,
            reachable,
            ctx,
        ).contains(f) && !(ctx@.managed && covered_by(ctx@.baseline, f.path)),
        !ctx@.managed ==> reported(recs, p, roots, reachable, ctx) == exposures(
            recs,
            p,
            roots,
            reachable,
            ctx,
        ),
{
    subtraction_keeps_the_excess(
        ctx@.baseline,
        exposures(recs, p, roots, reachable, ctx),
        f,
    );
}

/// The first account that matches at a level does match, and there is one wherever some
/// account does.
proof fn lemma_first_bound(
    accounts: Seq<(Seq<char>, ManagedAccount)>,
    p: access::PrincipalView,
    level: nat,
    i: int,
)
    ensures
        first_bound(accounts, p, level) matches Some(a) ==> binds(a, p, level),
        0 <= i < accounts.len() && binds(accounts[i].1, p, level) ==> first_bound(
            accounts,
            p,
            level,
        ) is Some,
    decreases accounts.len(),
{
    if accounts.len() > 0 {
        if i > 0 {
            assert(i < accounts.len() ==> accounts.skip(1)[i - 1] == accounts[i]);
        }
        lemma_first_bound(accounts.skip(1), p, level, i - 1);
    }
}

/// A principal is bound to its own account where there is one: an account with its name
/// and uid comes before any other, and one with its name before one with its uid alone.
/// It is bound to none only where no account has either.
pub proof fn own_accounts_bind_first(
    accounts: Seq<(Seq<char>, ManagedAccount)>,
    p: access::PrincipalView,
    i: int,
)
    requires
        0 <= i < accounts.len(),
    ensures
        accounts[i].1.name@ == p.name && accounts[i].1.uid == p.uid ==> {
            &&& bound_account(accounts, p) matches Some(a)
            &&& a.name@ == p.name && a.uid == p.uid
        },
        accounts[i].1.name@ == p.name ==> {
            &&& bound_account(accounts, p) matches Some(a)
            &&& a.name@ == p.name
        },
        accounts[i].1.uid == p.uid ==> bound_account(accounts, p) is Some,
        bound_account(accounts, p) matches Some(a) ==> a.name@ == p.name || a.uid == p.uid,
{
    lemma_first_bound(accounts, p, 0, i);
    lemma_first_bound(accounts, p, 1, i);
    lemma_first_bound(accounts, p, 2, i);
}

/// What is trimmed of a trailing character does not end in it.
proof fn lemma_trimmed(s: Seq<char>, c: char)
    ensures
        text::trim_end_char(s, c).len() > 0 ==> text::trim_end_char(s, c).last() != c,
    decreases s.len(),
{
    if s.len() > 0 && s.last() == c {
        lemma_trimmed(s.drop_last(), c);
    }
}

/// Whether a prefix hides less than the whole filesystem: it is absolute, and not the
/// root.
pub open spec fn bounded(prefix: Seq<char>) -> bool {
    catalog::is_absolute(prefix) && prefix.len() > 1 && prefix.last() != '/'
}

/// A prefix of the baseline is bounded.
proof fn lemma_baseline_prefix(raw: Seq<char>)
    ensures
        baseline_prefix(raw) matches Some(t) ==> bounded(t),
{
    lemma_trimmed(raw, '/');
}

/// The granted prefixes are bounded.
proof fn lemma_grant_prefixes(grants: Seq<ManagedFileGrant>, n: nat)
    requires
        n <= grants.len(),
    ensures
        forall|i: int|
            0 <= i < grant_prefixes_upto(grants, n).len() ==> bounded(
                (#[trigger] grant_prefixes_upto(grants, n)[i]).prefix,
            ),
    decreases n,
{
    if n > 0 {
        lemma_grant_prefixes(grants, (n - 1) as nat);
        lemma_baseline_prefix(grants[n - 1].path@);
        let before = grant_prefixes_upto(grants, (n - 1) as nat);
        let now = grant_prefixes_upto(grants, n);
        assert forall|i: int| 0 <= i < now.len() implies bounded((#[trigger] now[i]).prefix) by {
            if i < before.len() {
                assert(now[i] == before[i]);
            }
        }
    }
}

/// A baseline never hides the whole filesystem: a home or a granted path that is empty,
/// relative, or the root itself is left out of it.
pub proof fn degenerate_prefixes_cover_nothing(reg: Registry, p: access::PrincipalView)
    ensures
        forall|i: int|
            0 <= i < principal_context(reg, p).baseline.len() ==> bounded(
                (#[trigger] principal_context(reg, p).baseline[i]).prefix,
            ),
{
    let account = bound_account(reg.accounts.seq(), p);
    let grants = account_prefixes(account);
    match account {
        Some(a) => {
            lemma_grant_prefixes(a.file_grants@, a.file_grants@.len());
        },
        None => {},
    }
    match p.home {
        Some(h) => {
            lemma_baseline_prefix(h);
        },
        None => {},
    }
    let home = home_prefix(p.home);
    assert forall|i: int| 0 <= i < principal_context(reg, p).baseline.len() implies bounded(
        (#[trigger] principal_context(reg, p).baseline[i]).prefix,
    ) by {
        if i < grants.len() {
            assert(principal_context(reg, p).baseline[i] == grants[i]);
        } else {
            assert(principal_context(reg, p).baseline[i] == home[i - grants.len()]);
        }
    }
}

/// An unmanaged principal has an empty baseline.
pub proof fn unmanaged_principals_have_no_baseline(reg: Registry, p: access::PrincipalView)
    ensures
        !principal_context(reg, p).managed ==> principal_context(reg, p).baseline.len() == 0,
{
}

/// Findings depend on a context only by its contents.
proof fn lemma_exposures_by_view(
    recs: Seq<index::RecordView>,
    p: access::PrincipalView,
    roots: Seq<Seq<char>>,
    reachable: Set<Seq<char>>,
    a: &ManagedContext,
    b: &ManagedContext,
)
    requires
        a@ == b@,
    ensures
        exposures(recs, p, roots, reachable, a) == exposures(recs, p, roots, reachable, b),
    decreases recs.len(),
{
    if recs.len() > 0 {
        lemma_exposures_by_view(recs.drop_last(), p, roots, reachable, a, b);
    }
}

/// A report depends on the registry only by what it says of the principal and of the
/// managed groups: two contexts with the same contents give the same report.
pub proof fn reports_depend_on_the_context_alone(
    recs: Seq<index::RecordView>,
    p: access::PrincipalView,
    roots: Seq<Seq<char>>,
    reachable: Set<Seq<char>>,
    a: &ManagedContext,
    b: &ManagedContext,
)
    requires
        a@ == b@,
    ensures
        reported(recs, p, roots, reachable, a) == reported(recs, p, roots, reachable, b),
{
    lemma_exposures_by_view(recs, p, roots, reachable, a, b);
}

/// Where a prefix covers a path: on the path itself, and where it is recursive on everything
/// under it. A list covers what one of its prefixes does.
pub proof fn prefixes_cover_paths(prefixes: Seq<PrefixView>, path: Seq<char>)
    ensures
        covered_by(prefixes, path) <==> exists|i: int|
            {
                &&& 0 <= i < prefixes.len()
                &&& ((#[trigger] prefixes[i]).prefix == path || (prefixes[i].recursive
                    && catalog::at_or_under(prefixes[i].prefix, path)))
            },
{
}

/// The grant that is told is the first that covers the path.
pub proof fn the_first_cover(
    prefixes: Seq<PrefixView>,
    path: Seq<char>,
)
    ensures
        match first_cover(prefixes, path) {
            None => forall|i: int|
                0 <= i < prefixes.len() ==> !((#[trigger] prefixes[i]).covers(path)),
            Some(found) => exists|i: int|
                {
                    &&& 0 <= i < prefixes.len()
                    &&& (#[trigger] prefixes[i]).covers(path)
                    &&& found == prefixes[i].prefix
                    &&& forall|j: int| 0 <= j < i ==> !((#[trigger] prefixes[j]).covers(path))
                },
        },
    decreases prefixes.len(),
{
    if prefixes.len() > 0 && !(prefixes[0].covers(path)) {
        let rest = prefixes.skip(1);
        the_first_cover(rest, path);
        match first_cover(rest, path) {
            None => {
                assert forall|i: int|
                    0 <= i < prefixes.len() implies !((#[trigger] prefixes[i]).covers(path)) by {
                    if i > 0 {
                        assert(rest[i - 1] == prefixes[i]);
                    }
                }
            },
            Some(found) => {
                let i = choose|i: int|
                    {
                        &&& 0 <= i < rest.len()
                        &&& (#[trigger] rest[i]).covers(path)
                        &&& found == rest[i].prefix
                        &&& forall|j: int| 0 <= j < i ==> !((#[trigger] rest[j]).covers(path))
                    };
                assert(prefixes[i + 1] == rest[i]);
                assert forall|j: int|
                    0 <= j < i + 1 implies !((#[trigger] prefixes[j]).covers(path)) by {
                    if j > 0 {
                        assert(rest[j - 1] == prefixes[j]);
                    }
                }
            },
        }
    } else if prefixes.len() > 0 {
        assert(prefixes[0].covers(path));
    }
}

/// The account that is bound is the first that matches.
pub proof fn the_first_bound_account(
    accounts: Seq<(Seq<char>, ManagedAccount)>,
    p: access::PrincipalView,
    level: nat,
)
    ensures
        match first_bound(accounts, p, level) {
            None => forall|i: int|
                0 <= i < accounts.len() ==> !(binds((#[trigger] accounts[i]).1, p, level)),
            Some(found) => exists|i: int|
                {
                    &&& 0 <= i < accounts.len()
                    &&& binds((#[trigger] accounts[i]).1, p, level)
                    &&& found == accounts[i].1
                    &&& forall|j: int| 0 <= j < i ==> !(binds((#[trigger] accounts[j]).1, p, level))
                },
        },
    decreases accounts.len(),
{
    if accounts.len() > 0 && !(binds(accounts[0].1, p, level)) {
        let rest = accounts.skip(1);
        the_first_bound_account(rest, p, level);
        match first_bound(rest, p, level) {
            None => {
                assert forall|i: int|
                    0 <= i < accounts.len() implies !(binds((#[trigger] accounts[i]).1, p, level)) by {
                    if i > 0 {
                        assert(rest[i - 1] == accounts[i]);
                    }
                }
            },
            Some(found) => {
                let i = choose|i: int|
                    {
                        &&& 0 <= i < rest.len()
                        &&& binds((#[trigger] rest[i]).1, p, level)
                        &&& found == rest[i].1
                        &&& forall|j: int| 0 <= j < i ==> !(binds((#[trigger] rest[j]).1, p, level))
                    };
                assert(accounts[i + 1] == rest[i]);
                assert forall|j: int|
                    0 <= j < i + 1 implies !(binds((#[trigger] accounts[j]).1, p, level)) by {
                    if j > 0 {
                        assert(rest[j - 1] == accounts[j]);
                    }
                }
            },
        }
    } else if accounts.len() > 0 {
        assert(binds(accounts[0].1, p, level));
    }
}

/// Each finding is subtracted for itself, in order.
pub proof fn findings_are_subtracted_one_by_one(
    a: Seq<taxonomy::FindingView>,
    b: Seq<taxonomy::FindingView>,
    prefixes: Seq<PrefixView>,
)
    ensures
        uncovered(prefixes, Seq::<taxonomy::FindingView>::empty()).len() == 0,
        uncovered(prefixes, a + b) == uncovered(prefixes, a) + uncovered(prefixes, b),
    decreases b.len(),
{
    if b.len() == 0 {
        assert(a + b =~= a);
        assert(uncovered(prefixes, a) + uncovered(prefixes, b) =~= uncovered(prefixes, a));
    } else {
        findings_are_subtracted_one_by_one(a, b.drop_last(), prefixes);
        assert((a + b).drop_last() =~= a + b.drop_last());
        assert((a + b).last() == b.last());
        assert(uncovered(prefixes, a + b) =~= uncovered(prefixes, a) + uncovered(prefixes, b));
    }
}

/// How an account matches a principal: by name and uid at the first level, by name at the
/// second, by uid at the third.
pub proof fn accounts_match_by_name_and_uid(a: ManagedAccount, p: access::PrincipalView)
    ensures
        binds(a, p, 0) <==> a.name@ == p.name && a.uid == p.uid,
        binds(a, p, 1) <==> a.name@ == p.name,
        binds(a, p, 2) <==> a.uid == p.uid,
{
}

/// The account of a principal: the first that has its name and uid; without one, the first
/// that has its name; without one, the first that has its uid.
pub proof fn the_best_match_is_bound(
    accounts: Seq<(Seq<char>, ManagedAccount)>,
    p: access::PrincipalView,
)
    ensures
        first_bound(accounts, p, 0) is Some ==> bound_account(accounts, p) == first_bound(
            accounts,
            p,
            0,
        ),
        first_bound(accounts, p, 0) is None && first_bound(accounts, p, 1) is Some
            ==> bound_account(accounts, p) == first_bound(accounts, p, 1),
        first_bound(accounts, p, 0) is None && first_bound(accounts, p, 1) is None
            ==> bound_account(accounts, p) == first_bound(accounts, p, 2),
{
}

/// What can be a prefix: a path that begins with a slash and has more than slashes. It is
/// taken without the slashes at its end.
pub proof fn prefixes_are_below_the_root(raw: Seq<char>)
    ensures
        baseline_prefix(raw) is Some <==> raw.len() > 0 && raw[0] == '/' && exists|i: int|
            0 <= i < raw.len() && raw[i] != '/',
        baseline_prefix(raw) matches Some(t) ==> {
            &&& 0 < t.len() <= raw.len()
            &&& t == raw.take(t.len() as int)
            &&& t.last() != '/'
            &&& forall|i: int| t.len() <= i < raw.len() ==> raw[i] == '/'
        },
{
    text::trimming_a_character(raw, '/');
    let t = text::trim_end_char(raw, '/');
    if t.len() > 0 {
        assert(t[0] == raw[0]);
        assert(raw[t.len() - 1] == t.last());
    }
}

/// One recorded grant more: it is a prefix where its path can be one, recursive where the
/// grant is.
pub proof fn grants_are_prefixes(grants: Seq<ManagedFileGrant>, n: nat)
    requires
        n < grants.len(),
    ensures
        grant_prefixes_upto(grants, 0).len() == 0,
        baseline_prefix(grants[n as int].path@) is None ==> grant_prefixes_upto(grants, n + 1)
            == grant_prefixes_upto(grants, n),
        baseline_prefix(grants[n as int].path@) matches Some(t) ==> grant_prefixes_upto(
            grants,
            n + 1,
        ) == grant_prefixes_upto(grants, n).push(
            PrefixView { prefix: t, recursive: grants[n as int].recursive },
        ),
{
}

/// What is known of a principal. One that an account is bound to is managed: its baseline is
/// what the account was granted, and then its home with all below it. Any other has neither
/// grants nor a baseline. The managed groups are those of the registry either way.
pub proof fn what_is_known_of_a_principal(reg: Registry, p: access::PrincipalView)
    ensures
        principal_context(reg, p).groups == names::keys_of(reg.groups.seq()),
        match bound_account(reg.accounts.seq(), p) {
            None => {
                let c = principal_context(reg, p);
                !c.managed && c.baseline.len() == 0 && c.grants.len() == 0
            },
            Some(a) => {
                let c = principal_context(reg, p);
                let n = a.file_grants@.len();
                &&& c.managed
                &&& c.grants == grant_prefixes_upto(a.file_grants@, n)
                &&& (p.home matches Some(home) && baseline_prefix(home) is Some) ==> c.baseline
                    == c.grants.push(
                    PrefixView { prefix: baseline_prefix(p.home->0)->0, recursive: true },
                )
                &&& !(p.home matches Some(home) && baseline_prefix(home) is Some) ==> c.baseline
                    == c.grants
            },
        },
{
    if let Some(a) = bound_account(reg.accounts.seq(), p) {
        let c = principal_context(reg, p);
        assert(c.grants + Seq::<PrefixView>::empty() =~= c.grants);
        if let Some(home) = p.home {
            if let Some(t) = baseline_prefix(home) {
                assert(c.grants + seq![PrefixView { prefix: t, recursive: true }] =~= c.grants.push(
                    PrefixView { prefix: t, recursive: true },
                ));
            }
        }
    }
}

/// What a managed context owns: the groups that it lists, and the paths that a grant of it
/// covers.
pub proof fn contexts_own_groups_and_grants(ctx: &ManagedContext, name: Seq<char>, path: Seq<char>)
    ensures
        ctx.manages(name) <==> ctx@.groups.contains(name),
        ctx.grant_over(path) is Some <==> covered_by(ctx@.grants, path),
        first_cover(ctx@.grants, path) matches Some(t) ==> ctx.grant_over(path) == Some(
            "file-access grant on "@ + t,
        ),
{
    text::listed_is_contained(ctx@.groups, name);
    the_first_cover(ctx@.grants, path);
}

/// One finding: it is subtracted where the baseline covers its path.
pub proof fn one_finding_is_subtracted(prefixes: Seq<PrefixView>, f: taxonomy::FindingView)
    ensures
        covered_by(prefixes, f.path) ==> uncovered(prefixes, seq![f]).len() == 0,
        !covered_by(prefixes, f.path) ==> uncovered(prefixes, seq![f]) == seq![f],
{
    reveal_with_fuel(uncovered, 2);
    assert(seq![f].drop_last() =~= seq![]);
    assert(seq![f].last() == f);
    assert(Seq::<taxonomy::FindingView>::empty().push(f) =~= seq![f]);
}

/// The findings are told inode by inode, in the order of the index.
pub proof fn inodes_are_looked_at_one_by_one<C: RemediationContext>(
    a: Seq<index::RecordView>,
    b: Seq<index::RecordView>,
    p: access::PrincipalView,
    roots: Seq<Seq<char>>,
    reachable: Set<Seq<char>>,
    ctx: &C,
)
    ensures
        exposures(Seq::<index::RecordView>::empty(), p, roots, reachable, ctx).len() == 0,
        exposures(a + b, p, roots, reachable, ctx) == exposures(a, p, roots, reachable, ctx)
            + exposures(b, p, roots, reachable, ctx),
    decreases b.len(),
{
    if b.len() == 0 {
        assert(a + b =~= a);
        assert(exposures(a, p, roots, reachable, ctx) + exposures(b, p, roots, reachable, ctx)
            =~= exposures(a, p, roots, reachable, ctx));
    } else {
        inodes_are_looked_at_one_by_one(a, b.drop_last(), p, roots, reachable, ctx);
        assert((a + b).drop_last() =~= a + b.drop_last());
        assert((a + b).last() == b.last());
        assert(exposures(a + b, p, roots, reachable, ctx) =~= exposures(
            a,
            p,
            roots,
            reachable,
            ctx,
        ) + exposures(b, p, roots, reachable, ctx));
    }
}

/// One inode: there is a finding where it is under one of the roots (or there are none), the
/// principal reaches it, and what it may do there is a risk. The finding is of that access,
/// for the reason of it, and names the principal.
pub proof fn one_inode_is_looked_at<C: RemediationContext>(
    rec: index::RecordView,
    p: access::PrincipalView,
    roots: Seq<Seq<char>>,
    reachable: Set<Seq<char>>,
    ctx: &C,
)
    ensures
        ({
            let out = exposures(seq![rec], p, roots, reachable, ctx);
            let e = access::effective_of(rec, p);
            let inside = roots.len() == 0 || exists|r: int|
                0 <= r < roots.len() && catalog::at_or_under(#[trigger] roots[r], rec.path);
            if inside && reachable.contains(rec.path) && taxonomy::risk_of(
                e.access,
                rec.class,
            ) is Some {
                &&& out.len() == 1
                &&& out[0].principal == Some(p.name)
                &&& out[0].path == rec.path
                &&& out[0].class == rec.class
                &&& out[0].access == e.access
                &&& out[0].why == e.via
                &&& Some(out[0].risk) == taxonomy::risk_of(e.access, rec.class)
                &&& out[0].severity == taxonomy::severity_of(rec.class, out[0].risk)
                &&& out[0].remediation_class == taxonomy::remedy(
                    e.via,
                    rec.path,
                    rec.class,
                    e.access,
                    ctx,
                ).class
                &&& out[0].hint == taxonomy::remedy(
                    e.via,
                    rec.path,
                    rec.class,
                    e.access,
                    ctx,
                ).hint
            } else {
                out.len() == 0
            }
        }),
{
    reveal_with_fuel(exposures, 2);
    assert(seq![rec].drop_last() =~= seq![]);
    assert(seq![rec].last() == rec);
    assert(exposures(seq![rec].drop_last(), p, roots, reachable, ctx) =~= seq![]);
}

} // verus!
