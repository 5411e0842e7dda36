//! Read-only diagnostics: the managed registry reconciled against the live system.
//!
//! An [`Severity::Error`] is a broken security invariant and fails the exit code; a
//! [`Severity::Warn`] is advisory. Nothing is changed here.

use vstd::prelude::*;

use crate::inspect;
use crate::inspect::{AccountFacts, HostFacts};
use crate::plan;
use crate::plan::Plan;
use crate::state::{ManagedAccount, ManagedGroup, Provenance, Registry};
use crate::text;

verus! {

broadcast use vstd::string::group_string_axioms;

/// Severity of a doctor finding.
#[derive(Debug, Clone, Copy, PartialEq, Eq, Structural)]
pub enum Severity {
    /// Broken security invariant: fails the exit code.
    Error,
    /// Advisory: printed but does not fail the exit code.
    Warn,
}

impl Severity {
    /// The tag of a severity.
    pub open spec fn text(self) -> Seq<char> {
        match self {
            Severity::Error => "ERROR"@,
            Severity::Warn => "WARN"@,
        }
    }

    /// Short uppercase tag for rendering.
    pub fn tag(self) -> (r: &'static str)
        ensures
            r@ == self.text(),
    {
        match self {
            Severity::Error => "ERROR",
            Severity::Warn => "WARN",
        }
    }
}

/// A single diagnostic finding.
#[derive(Debug, Clone, PartialEq, Eq)]
pub struct Finding {
    /// How severe the finding is.
    pub severity: Severity,
    /// Stable check identifier.
    pub check: &'static str,
    /// The account or object the finding concerns.
    pub target: String,
    /// Human-readable explanation.
    pub message: String,
}

/// The contents of a [`Finding`].
#[verifier::ext_equal]
pub struct FindingView {
    /// How severe the finding is.
    pub severity: Severity,
    /// The check.
    pub check: Seq<char>,
    /// What it concerns.
    pub target: Seq<char>,
    /// The explanation.
    pub message: Seq<char>,
}

impl View for Finding {
    type V = FindingView;

    open spec fn view(&self) -> FindingView {
        FindingView {
            severity: self.severity,
            check: self.check@,
            target: self.target@,
            message: self.message@,
        }
    }
}

/// The contents of a list of findings.
pub open spec fn finding_views(v: Seq<Finding>) -> Seq<FindingView> {
    v.map_values(|f: Finding| f@)
}

/// The findings of one run.
#[derive(Debug, Clone, PartialEq, Eq)]
pub struct DoctorReport {
    /// All findings, in check order.
    pub findings: Vec<Finding>,
}

/// Whether some finding is an error.
pub open spec fn any_error(findings: Seq<FindingView>) -> bool {
    exists|i: int| 0 <= i < findings.len() && (#[trigger] findings[i]).severity is Error
}

impl Default for DoctorReport {
    /// A report without findings.
    fn default() -> (r: Self)
        ensures
            finding_views(r.findings@) == Seq::<FindingView>::empty(),
    {
        let r = DoctorReport { findings: Vec::new() };
        proof {
            assert(finding_views(r.findings@) =~= Seq::<FindingView>::empty());
        }
        r
    }
}

impl DoctorReport {
    /// Whether any finding is an error: the caller then exits non-zero.
    pub fn has_errors(&self) -> (r: bool)
        ensures
            r == any_error(finding_views(self.findings@)),
    {
        let ghost all = finding_views(self.findings@);
        let mut i: usize = 0;
        while i < self.findings.len()
            invariant
                all == finding_views(self.findings@),
                i <= self.findings@.len(),
                forall|j: int| 0 <= j < i ==> !((#[trigger] all[j]).severity is Error),
            decreases self.findings@.len() - i,
        {
            match self.findings[i].severity {
                Severity::Error => {
                    proof {
                        assert(all[i as int].severity is Error);
                    }
                    return true;
                },
                Severity::Warn => {},
            }
            i += 1;
        }
        false
    }
}

/// The account registry against the live accounts.
pub const CHECK_REGISTRY: &'static str = "registry-integrity";

/// The group registry against the live groups.
pub const CHECK_GROUP_REGISTRY: &'static str = "group-registry-integrity";

/// That nobody can log in as a role account.
pub const CHECK_UNREACHABLE: &'static str = "unreachability";

/// That somebody outside the managed set can log in.
pub const CHECK_ANTILOCKOUT: &'static str = "anti-lockout";

/// That the shadow database cannot be read, so password locks cannot be evaluated.
pub const CHECK_SHADOW_UNREADABLE: &'static str = "shadow-unreadable";

/// The registry against the declaration.
pub const CHECK_DRIFT: &'static str = "drift";

/// The recorded file grants against the live ACL entries.
pub const CHECK_FILE_ACCESS_DRIFT: &'static str = "file-access-drift";

/// The adopted groups against what was seen when they were adopted.
pub const CHECK_ADOPTED_GROUP_DRIFT: &'static str = "adopted-group-drift";

/// The integrity of the framework cross-reference.
pub const CHECK_FRAMEWORK_INTEGRITY: &'static str = "framework-integrity";

/// An error.
pub open spec fn error(check: Seq<char>, target: Seq<char>, message: Seq<char>) -> FindingView {
    FindingView { severity: Severity::Error, check, target, message }
}

/// A warning.
pub open spec fn warning(check: Seq<char>, target: Seq<char>, message: Seq<char>) -> FindingView {
    FindingView { severity: Severity::Warn, check, target, message }
}

// ---------------------------------------------------------------------------
// Texts
// ---------------------------------------------------------------------------

/// The parts, with `sep` between them.
pub open spec fn joined(parts: Seq<Seq<char>>, sep: Seq<char>) -> Seq<char>
    decreases parts.len(),
{
    if parts.len() == 0 {
        seq![]
    } else if parts.len() == 1 {
        parts[0]
    } else {
        joined(parts.drop_last(), sep) + sep + parts.last()
    }
}

/// The parts in the form in which `Debug` prints a string.
pub open spec fn quoted(parts: Seq<Seq<char>>) -> Seq<Seq<char>> {
    parts.map_values(|t: Seq<char>| text::debug_text(t))
}

/// The form in which `Debug` prints a list of strings.
pub open spec fn list_text(parts: Seq<Seq<char>>) -> Seq<char> {
    "["@ + joined(quoted(parts), ", "@) + "]"@
}

/// The parts, with `sep` between them.
fn join_parts(parts: &[String], sep: &str) -> (r: String)
    ensures
        r@ == joined(text::views(parts@), sep@),
{
    let ghost all = text::views(parts@);
    if parts.len() == 0 {
        let r = String::new();
        proof {
            assert(r@ =~= joined(all, sep@));
        }
        return r;
    }
    let mut r = parts[0].clone();
    let mut i: usize = 1;
    proof {
        assert(all.take(1)[0] == parts@[0]@);
    }
    while i < parts.len()
        invariant
            all == text::views(parts@),
            1 <= i <= parts@.len(),
            r@ == joined(all.take(i as int), sep@),
        decreases parts@.len() - i,
    {
        proof {
            assert(all.take(i + 1).drop_last() =~= all.take(i as int));
            assert(all.take(i + 1).last() == parts@[i as int]@);
        }
        r.append(sep);
        r.append(&parts[i]);
        i += 1;
    }
    proof {
        assert(all.take(i as int) =~= all);
    }
    r
}

/// The form in which `Debug` prints a list of strings.
fn list_string(parts: &[String]) -> (r: String)
    ensures
        r@ == list_text(text::views(parts@)),
{
    let ghost all = quoted(text::views(parts@));
    let mut shown: Vec<String> = Vec::new();
    let mut i: usize = 0;
    while i < parts.len()
        invariant
            all == quoted(text::views(parts@)),
            i <= parts@.len(),
            text::views(shown@) == all.take(i as int),
        decreases parts@.len() - i,
    {
        let ghost was = text::views(shown@);
        let q = text::debug_string(&parts[i]);
        let ghost one = q@;
        shown.push(q);
        proof {
            assert(one == all[i as int]);
            assert(text::views(shown@) =~= was.push(one));
            assert(all.take(i + 1) =~= was.push(one));
        }
        i += 1;
    }
    proof {
        assert(all.take(i as int) =~= all);
    }
    text::join3("[", &join_parts(shown.as_slice(), ", "), "]")
}

// ---------------------------------------------------------------------------
// What the checks say
// ---------------------------------------------------------------------------

/// How often `t` occurs in a list.
pub open spec fn occurrences(list: Seq<Seq<char>>, t: Seq<char>) -> nat
    decreases list.len(),
{
    if list.len() == 0 {
        0
    } else {
        occurrences(list.drop_last(), t) + if list.last() == t {
            1nat
        } else {
            0
        }
    }
}

/// Whether two lists hold the same strings, in whatever order.
pub open spec fn same_strings(a: Seq<Seq<char>>, b: Seq<Seq<char>>) -> bool {
    forall|t: Seq<char>| #[trigger] occurrences(a, t) == occurrences(b, t)
}

/// A list of at most one text.
pub open spec fn text_if(cond: bool, t: Seq<char>) -> Seq<Seq<char>> {
    if cond {
        seq![t]
    } else {
        seq![]
    }
}

/// In what a live account differs from its record.
pub open spec fn account_diffs(facts: AccountFacts, record: ManagedAccount) -> Seq<Seq<char>> {
    text_if(
        facts.uid != record.uid,
        "uid "@ + text::decimal(facts.uid as nat) + " != registry "@ + text::decimal(
            record.uid as nat,
        ),
    ) + text_if(
        facts.shell@ != record.shell@,
        "shell "@ + text::debug_text(facts.shell@) + " != registry "@ + text::debug_text(
            record.shell@,
        ),
    ) + text_if(
        !same_strings(text::views(facts.groups@), text::views(record.groups@)),
        "groups "@ + list_text(text::views(facts.groups@)) + " != registry "@ + list_text(
            text::views(record.groups@),
        ),
    )
}

/// What the registry check says of an account.
pub open spec fn account_finding(name: Seq<char>, record: ManagedAccount, h: HostFacts) -> Option<
    FindingView,
> {
    match h.accounts.lookup(name) {
        None => Some(
            error(
                CHECK_REGISTRY@,
                name,
                "registry entry has no live account (managed object vanished)"@,
            ),
        ),
        Some(facts) => {
            let diffs = account_diffs(facts, record);
            if diffs.len() == 0 {
                None
            } else {
                Some(
                    error(
                        CHECK_REGISTRY@,
                        name,
                        "live account differs from registry: "@ + joined(diffs, "; "@),
                    ),
                )
            }
        },
    }
}

/// A list of at most one finding.
pub open spec fn as_list(f: Option<FindingView>) -> Seq<FindingView> {
    match f {
        Some(f) => seq![f],
        None => seq![],
    }
}

/// What the registry check says of the accounts.
pub open spec fn account_findings(
    accounts: Seq<(Seq<char>, ManagedAccount)>,
    h: HostFacts,
) -> Seq<FindingView>
    decreases accounts.len(),
{
    if accounts.len() == 0 {
        seq![]
    } else {
        let (name, record) = accounts.last();
        account_findings(accounts.drop_last(), h) + as_list(account_finding(name, record, h))
    }
}

/// What the registry check says of the accounts that carry a marker: one that is not in
/// the registry may be a spoof.
pub open spec fn marker_findings(marked: Seq<Seq<char>>, registry: Registry) -> Seq<FindingView>
    decreases marked.len(),
{
    if marked.len() == 0 {
        seq![]
    } else {
        let name = marked.last();
        let before = marker_findings(marked.drop_last(), registry);
        if registry.accounts.lookup(name) is Some {
            before
        } else {
            before.push(
                error(
                    CHECK_REGISTRY@,
                    name,
                    "account carries a Census GECOS marker but is not in the registry (possible spoof; registry is authoritative)"@,
                ),
            )
        }
    }
}

/// What the group check says of a group. The gid of an adopted group was observed, not
/// assigned, so its drift is no matter for this check.
pub open spec fn group_finding(name: Seq<char>, record: ManagedGroup, h: HostFacts) -> Option<
    FindingView,
> {
    match h.groups.lookup(name) {
        None => Some(
            error(
                CHECK_GROUP_REGISTRY@,
                name,
                "registry group has no live group (managed group vanished)"@,
            ),
        ),
        Some(facts) => match record.gid {
            Some(gid) => if facts.gid != gid && record.provenance is Created {
                Some(
                    error(
                        CHECK_GROUP_REGISTRY@,
                        name,
                        "live gid "@ + text::decimal(facts.gid as nat) + " != registry gid "@
                            + text::decimal(gid as nat)
                            + " (managed group renumbered out of band)"@,
                    ),
                )
            } else {
                None
            },
            None => None,
        },
    }
}

/// What the group check says of the groups.
pub open spec fn group_findings(
    groups: Seq<(Seq<char>, ManagedGroup)>,
    h: HostFacts,
) -> Seq<FindingView>
    decreases groups.len(),
{
    if groups.len() == 0 {
        seq![]
    } else {
        let (name, record) = groups.last();
        group_findings(groups.drop_last(), h) + as_list(group_finding(name, record, h))
    }
}

/// The drift of an adopted group's gid.
pub open spec fn gid_drift(name: Seq<char>, baseline: Option<u32>, h: HostFacts) -> Option<
    FindingView,
> {
    match (h.groups.lookup(name), baseline) {
        (Some(facts), Some(gid)) => if facts.gid != gid {
            Some(
                warning(
                    CHECK_ADOPTED_GROUP_DRIFT@,
                    name,
                    "live gid "@ + text::decimal(facts.gid as nat) + " != adopt baseline gid "@
                        + text::decimal(gid as nat)
                        + " (adopted group renumbered out of band)"@,
                ),
            )
        } else {
            None
        },
        _ => None,
    }
}

/// That the sudoers fragment of a group with recorded sudo commands was seen to be gone.
pub open spec fn fragment_drift(name: Seq<char>, record: ManagedGroup, h: HostFacts) -> Option<
    FindingView,
> {
    if record.sudo_commands@.len() > 0 && h.group_sudoers_fragments.lookup(name) == Some(false) {
        Some(
            warning(
                CHECK_ADOPTED_GROUP_DRIFT@,
                name,
                "census-grp-"@ + name
                    + " sudoers fragment is gone but the registry records group sudo commands (drift; re-apply to repair)"@,
            ),
        )
    } else {
        None
    }
}

/// The members that were added and are no longer there.
pub open spec fn member_drift(
    name: Seq<char>,
    added: Seq<Seq<char>>,
    live: Seq<Seq<char>>,
) -> Seq<FindingView>
    decreases added.len(),
{
    if added.len() == 0 {
        seq![]
    } else {
        let before = member_drift(name, added.drop_last(), live);
        if text::listed(live, added.last()) {
            before
        } else {
            before.push(
                warning(
                    CHECK_ADOPTED_GROUP_DRIFT@,
                    name,
                    "census-added member "@ + added.last() + " is no longer in adopted group "@
                        + name + " (drift; re-apply to repair)"@,
                ),
            )
        }
    }
}

/// What the drift check says of an adopted group with a baseline. A member list that is
/// empty, or could not be read, makes no claim.
pub open spec fn adopted_drift(name: Seq<char>, record: ManagedGroup, h: HostFacts) -> Seq<
    FindingView,
> {
    match record.adopt_baseline {
        Some(baseline) => if record.provenance is Adopted {
            as_list(gid_drift(name, baseline.gid, h)) + as_list(fragment_drift(name, record, h))
                + if h.members(name).len() == 0 {
                seq![]
            } else {
                member_drift(name, text::views(record.members_added@), h.members(name))
            }
        } else {
            seq![]
        },
        None => seq![],
    }
}

/// What the drift check says of the adopted groups.
pub open spec fn adopted_findings(
    groups: Seq<(Seq<char>, ManagedGroup)>,
    h: HostFacts,
) -> Seq<FindingView>
    decreases groups.len(),
{
    if groups.len() == 0 {
        seq![]
    } else {
        let (name, record) = groups.last();
        adopted_findings(groups.drop_last(), h) + adopted_drift(name, record, h)
    }
}

/// What the ACL check says of the first `n` file grants of an account: only an entry
/// that was looked for and not found is drift.
pub open spec fn grant_drift(name: Seq<char>, record: ManagedAccount, n: int, h: HostFacts) -> Seq<
    FindingView,
>
    decreases n,
{
    if n <= 0 {
        seq![]
    } else {
        let before = grant_drift(name, record, n - 1, h);
        let path = record.file_grants@[n - 1].path@;
        if inspect::acl_fact(h.file_acls@, path, name) == Some(false) {
            before.push(
                warning(
                    CHECK_FILE_ACCESS_DRIFT@,
                    name,
                    "managed file grant on "@ + path
                        + " has no live ACL entry for the account (drift; re-apply to repair)"@,
                ),
            )
        } else {
            before
        }
    }
}

/// What the ACL check says of the accounts.
pub open spec fn acl_findings(
    accounts: Seq<(Seq<char>, ManagedAccount)>,
    h: HostFacts,
) -> Seq<FindingView>
    decreases accounts.len(),
{
    if accounts.len() == 0 {
        seq![]
    } else {
        let (name, record) = accounts.last();
        acl_findings(accounts.drop_last(), h) + grant_drift(
            name,
            record,
            record.file_grants@.len() as int,
            h,
        )
    }
}

/// That the shadow database cannot be read, where there are accounts to evaluate.
pub open spec fn shadow_advisory(registry: Registry, h: HostFacts) -> Option<FindingView> {
    if h.shadow_unreadable && registry.accounts.seq().len() > 0 {
        Some(
            warning(
                CHECK_SHADOW_UNREADABLE@,
                "<system>"@,
                "shadow database is unreadable (run as root to evaluate password-lock state); cannot confirm §8 unreachability for managed accounts"@,
            ),
        )
    } else {
        None
    }
}

/// What the password of an account says. Where the shadow database cannot be read, no
/// claim is made.
pub open spec fn password_finding(name: Seq<char>, h: HostFacts) -> Option<FindingView> {
    if h.shadow_unreadable {
        None
    } else {
        match h.locked.lookup(name) {
            Some(true) => None,
            Some(false) => Some(
                error(
                    CHECK_UNREACHABLE@,
                    name,
                    "password is NOT locked (role account must be unreachable, §8)"@,
                ),
            ),
            None => Some(
                error(
                    CHECK_UNREACHABLE@,
                    name,
                    "shadow entry is absent; cannot confirm password lock"@,
                ),
            ),
        }
    }
}

/// What an `authorized_keys` file says.
pub open spec fn keys_finding(name: Seq<char>, h: HostFacts) -> Option<FindingView> {
    if text::listed(text::views(h.authorized_keys@), name) {
        Some(
            error(
                CHECK_UNREACHABLE@,
                name,
                "~/.ssh/authorized_keys present (alternative login path, §8)"@,
            ),
        )
    } else {
        None
    }
}

/// What the unreachability check says of an account.
pub open spec fn reach_findings_of(name: Seq<char>, h: HostFacts) -> Seq<FindingView> {
    match h.accounts.lookup(name) {
        None => seq![
            error(
                CHECK_UNREACHABLE@,
                name,
                "managed role account is missing (cannot verify unreachability)"@,
            ),
        ],
        Some(_) => as_list(password_finding(name, h)) + as_list(keys_finding(name, h)),
    }
}

/// What the unreachability check says of the accounts.
pub open spec fn reach_findings(
    accounts: Seq<(Seq<char>, ManagedAccount)>,
    h: HostFacts,
) -> Seq<FindingView>
    decreases accounts.len(),
{
    if accounts.len() == 0 {
        seq![]
    } else {
        reach_findings(accounts.drop_last(), h) + reach_findings_of(accounts.last().0, h)
    }
}

/// Whether somebody outside the managed set can log in.
pub open spec fn has_rescue(registry: Registry, h: HostFacts) -> bool {
    exists|i: int|
        0 <= i < h.login_capable@.len() && registry.accounts.lookup(
            (#[trigger] h.login_capable@[i])@,
        ) is None
}

/// What the lockout check says. Where the shadow database cannot be read, it cannot be
/// told who can log in.
pub open spec fn lockout_finding(registry: Registry, h: HostFacts) -> Option<FindingView> {
    if h.shadow_unreadable {
        if registry.accounts.seq().len() == 0 {
            Some(
                warning(
                    CHECK_SHADOW_UNREADABLE@,
                    "<system>"@,
                    "shadow database is unreadable (run as root to evaluate password-lock state); cannot evaluate the §7 anti-lockout rescue set"@,
                ),
            )
        } else {
            None
        }
    } else if !has_rescue(registry, h) {
        Some(
            warning(
                CHECK_ANTILOCKOUT@,
                "<system>"@,
                "no login-capable account outside the managed set (potential lockout if the cert path fails, §7)"@,
            ),
        )
    } else {
        None
    }
}

/// What the plan that would bring the system into conformance says.
pub open spec fn drift_finding(p: Option<&Plan>) -> Option<FindingView> {
    match p {
        Some(p) => if p.actions@.len() == 0 {
            None
        } else {
            Some(
                warning(
                    CHECK_DRIFT@,
                    "<declaration>"@,
                    "declaration drift: "@ + text::decimal(plan::creates(p.actions@))
                        + " create(s), "@ + text::decimal(plan::updates(p.actions@))
                        + " update(s), "@ + text::decimal(plan::deletes(p.actions@))
                        + " delete(s)"@,
                ),
            )
        },
        None => None,
    }
}

/// All findings, in check order.
pub open spec fn diagnosis(registry: Registry, h: HostFacts, p: Option<&Plan>) -> Seq<FindingView> {
    account_findings(registry.accounts.seq(), h) + marker_findings(
        text::views(h.marked@),
        registry,
    ) + group_findings(registry.groups.seq(), h) + adopted_findings(registry.groups.seq(), h)
        + acl_findings(registry.accounts.seq(), h) + as_list(shadow_advisory(registry, h))
        + reach_findings(registry.accounts.seq(), h) + as_list(lockout_finding(registry, h))
        + as_list(drift_finding(p))
}

// ---------------------------------------------------------------------------
// The checks
// ---------------------------------------------------------------------------

/// An error.
fn new_error(check: &'static str, target: &str, message: String) -> (f: Finding)
    ensures
        f@ == error(check@, target@, message@),
{
    Finding { severity: Severity::Error, check, target: target.to_owned(), message }
}

/// A warning.
fn new_warning(check: &'static str, target: &str, message: String) -> (f: Finding)
    ensures
        f@ == warning(check@, target@, message@),
{
    Finding { severity: Severity::Warn, check, target: target.to_owned(), message }
}

/// Append a finding.
fn report(out: &mut Vec<Finding>, f: Finding)
    ensures
        finding_views(final(out)@) == finding_views(old(out)@).push(f@),
        finding_views(final(out)@) == finding_views(old(out)@) + seq![f@],
{
    let ghost was = finding_views(out@);
    let ghost one = f@;
    out.push(f);
    proof {
        assert(finding_views(out@) =~= was.push(one));
        assert(finding_views(out@) =~= was + seq![one]);
    }
}

/// How often `t` occurs in a list.
fn count_of(list: &[String], t: &str) -> (n: usize)
    ensures
        n == occurrences(text::views(list@), t@),
{
    let ghost all = text::views(list@);
    let mut n: usize = 0;
    let mut i: usize = 0;
    while i < list.len()
        invariant
            all == text::views(list@),
            i <= list@.len(),
            n <= i,
            n == occurrences(all.take(i as int), t@),
        decreases list@.len() - i,
    {
        proof {
            assert(all.take(i + 1).drop_last() =~= all.take(i as int));
            assert(all.take(i + 1).last() == list@[i as int]@);
        }
        if text::same(&list[i], t) {
            n += 1;
        }
        i += 1;
    }
    proof {
        assert(all.take(i as int) =~= all);
    }
    n
}

/// A string that a list does not hold does not occur in it.
proof fn lemma_absent(list: Seq<Seq<char>>, t: Seq<char>)
    requires
        forall|i: int| 0 <= i < list.len() ==> list[i] != t,
    ensures
        occurrences(list, t) == 0,
    decreases list.len(),
{
    if list.len() > 0 {
        assert forall|i: int| 0 <= i < list.drop_last().len() implies list.drop_last()[i] != t by {
            assert(list.drop_last()[i] == list[i]);
        }
        lemma_absent(list.drop_last(), t);
    }
}

/// Whether every string of `a` occurs as often in `b`.
fn occurs_alike(a: &[String], b: &[String]) -> (r: bool)
    ensures
        r == (forall|i: int|
            0 <= i < a@.len() ==> occurrences(text::views(a@), #[trigger] text::views(a@)[i])
                == occurrences(text::views(b@), text::views(a@)[i])),
{
    let ghost all = text::views(a@);
    let mut i: usize = 0;
    while i < a.len()
        invariant
            all == text::views(a@),
            i <= a@.len(),
            forall|j: int|
                0 <= j < i ==> occurrences(all, #[trigger] all[j]) == occurrences(
                    text::views(b@),
                    all[j],
                ),
        decreases a@.len() - i,
    {
        proof {
            assert(all[i as int] == a@[i as int]@);
        }
        if count_of(a, &a[i]) != count_of(b, &a[i]) {
            return false;
        }
        i += 1;
    }
    true
}

/// Whether two lists hold the same strings, in whatever order.
fn hold_same(a: &[String], b: &[String]) -> (r: bool)
    ensures
        r == same_strings(text::views(a@), text::views(b@)),
{
    let ghost x = text::views(a@);
    let ghost y = text::views(b@);
    let left = occurs_alike(a, b);
    let right = occurs_alike(b, a);
    proof {
        if left && right {
            assert forall|t: Seq<char>| #[trigger] occurrences(x, t) == occurrences(y, t) by {
                if exists|i: int| 0 <= i < x.len() && x[i] == t {
                    let i = choose|i: int| 0 <= i < x.len() && x[i] == t;
                    assert(occurrences(x, x[i]) == occurrences(y, x[i]));
                } else if exists|i: int| 0 <= i < y.len() && y[i] == t {
                    let i = choose|i: int| 0 <= i < y.len() && y[i] == t;
                    assert(occurrences(y, y[i]) == occurrences(x, y[i]));
                } else {
                    lemma_absent(x, t);
                    lemma_absent(y, t);
                }
            }
        }
        if same_strings(x, y) {
            assert(forall|i: int|
                0 <= i < x.len() ==> occurrences(x, #[trigger] x[i]) == occurrences(y, x[i]));
            assert(forall|i: int|
                0 <= i < y.len() ==> occurrences(y, #[trigger] y[i]) == occurrences(x, y[i]));
        }
    }
    left && right
}

/// `before`, one text, `between`, another text.
fn differs(before: &str, a: &str, b: &str) -> (r: String)
    ensures
        r@ == before@ + a@ + " != registry "@ + b@,
{
    let mut r = text::join3(before, a, " != registry ");
    r.append(b);
    r
}

/// In what a live account differs from its record.
fn diff_account(facts: &AccountFacts, record: &ManagedAccount) -> (out: Vec<String>)
    ensures
        text::views(out@) == account_diffs(*facts, *record),
{
    let mut out: Vec<String> = Vec::new();
    let ghost none = Seq::<Seq<char>>::empty();
    proof {
        assert(text::views(out@) =~= none);
    }
    let ghost first = text_if(
        facts.uid != record.uid,
        "uid "@ + text::decimal(facts.uid as nat) + " != registry "@ + text::decimal(
            record.uid as nat,
        ),
    );
    if facts.uid != record.uid {
        let d = differs(
            "uid ",
            &text::decimal_string(facts.uid as u64),
            &text::decimal_string(record.uid as u64),
        );
        out.push(d);
    }
    proof {
        assert(text::views(out@) =~= first);
    }
    let ghost second = text_if(
        facts.shell@ != record.shell@,
        "shell "@ + text::debug_text(facts.shell@) + " != registry "@ + text::debug_text(
            record.shell@,
        ),
    );
    if !text::same(&facts.shell, &record.shell) {
        let d = differs(
            "shell ",
            &text::debug_string(&facts.shell),
            &text::debug_string(&record.shell),
        );
        out.push(d);
    }
    proof {
        assert(text::views(out@) =~= first + second);
    }
    if !hold_same(facts.groups.as_slice(), record.groups.as_slice()) {
        let d = differs(
            "groups ",
            &list_string(facts.groups.as_slice()),
            &list_string(record.groups.as_slice()),
        );
        out.push(d);
    }
    proof {
        assert(text::views(out@) =~= account_diffs(*facts, *record));
    }
    out
}

/// The account registry against the live accounts.
fn check_accounts(registry: &Registry, facts: &HostFacts, out: &mut Vec<Finding>)
    ensures
        finding_views(final(out)@) == finding_views(old(out)@) + account_findings(
            registry.accounts.seq(),
            *facts,
        ),
{
    let ghost all = registry.accounts.seq();
    let ghost was = finding_views(out@);
    let n = registry.accounts.len();
    let mut i: usize = 0;
    proof {
        assert(was + account_findings(all.take(0), *facts) =~= was);
    }
    while i < n
        invariant
            all == registry.accounts.seq(),
            n == all.len(),
            i <= n,
            finding_views(out@) == was + account_findings(all.take(i as int), *facts),
        decreases n - i,
    {
        let name = registry.accounts.key_at(i);
        let record = registry.accounts.value_at(i);
        let ghost before = account_findings(all.take(i as int), *facts);
        proof {
            assert(all.take(i + 1).drop_last() =~= all.take(i as int));
            assert(all.take(i + 1).last() == (name@, *record));
        }
        match facts.accounts.get(name) {
            None => {
                report(
                    out,
                    new_error(
                        CHECK_REGISTRY,
                        name,
                        "registry entry has no live account (managed object vanished)".to_owned(),
                    ),
                );
            },
            Some(live) => {
                let diffs = diff_account(live, record);
                proof {
                    assert(text::views(diffs@).len() == diffs@.len());
                }
                if diffs.len() > 0 {
                    report(
                        out,
                        new_error(
                            CHECK_REGISTRY,
                            name,
                            text::join2(
                                "live account differs from registry: ",
                                &join_parts(diffs.as_slice(), "; "),
                            ),
                        ),
                    );
                }
            },
        }
        proof {
            assert(was + (before + as_list(account_finding(name@, *record, *facts))) =~= was
                + before + as_list(account_finding(name@, *record, *facts)));
            assert(was + before + Seq::<FindingView>::empty() =~= was + before);
        }
        i += 1;
    }
    proof {
        assert(all.take(i as int) =~= all);
    }
}

/// The marked accounts against the registry.
fn check_markers(registry: &Registry, facts: &HostFacts, out: &mut Vec<Finding>)
    ensures
        finding_views(final(out)@) == finding_views(old(out)@) + marker_findings(
            text::views(facts.marked@),
            *registry,
        ),
{
    let ghost all = text::views(facts.marked@);
    let ghost was = finding_views(out@);
    let mut i: usize = 0;
    proof {
        assert(was + marker_findings(all.take(0), *registry) =~= was);
    }
    while i < facts.marked.len()
        invariant
            all == text::views(facts.marked@),
            i <= facts.marked@.len(),
            finding_views(out@) == was + marker_findings(all.take(i as int), *registry),
        decreases facts.marked@.len() - i,
    {
        let name = &facts.marked[i];
        let ghost before = marker_findings(all.take(i as int), *registry);
        proof {
            assert(all.take(i + 1).drop_last() =~= all.take(i as int));
            assert(all.take(i + 1).last() == name@);
        }
        if !registry.accounts.contains_key(name) {
            report(
                out,
                new_error(
                    CHECK_REGISTRY,
                    name,
                    "account carries a Census GECOS marker but is not in the registry (possible spoof; registry is authoritative)".to_owned(),
                ),
            );
            proof {
                assert(finding_views(out@) =~= was + marker_findings(all.take(i + 1), *registry));
            }
        }
        i += 1;
    }
    proof {
        assert(all.take(i as int) =~= all);
    }
}

/// `before`, a gid, `between`, another gid, `after`.
fn gid_message(live: u32, between: &str, recorded: u32, after: &str) -> (r: String)
    ensures
        r@ == "live gid "@ + text::decimal(live as nat) + between@ + text::decimal(
            recorded as nat,
        ) + after@,
{
    let mut r = text::join3("live gid ", &text::decimal_string(live as u64), between);
    r.append(&text::decimal_string(recorded as u64));
    r.append(after);
    r
}

/// The group registry against the live groups.
fn check_groups(registry: &Registry, facts: &HostFacts, out: &mut Vec<Finding>)
    ensures
        finding_views(final(out)@) == finding_views(old(out)@) + group_findings(
            registry.groups.seq(),
            *facts,
        ),
{
    let ghost all = registry.groups.seq();
    let ghost was = finding_views(out@);
    let n = registry.groups.len();
    let mut i: usize = 0;
    proof {
        assert(was + group_findings(all.take(0), *facts) =~= was);
    }
    while i < n
        invariant
            all == registry.groups.seq(),
            n == all.len(),
            i <= n,
            finding_views(out@) == was + group_findings(all.take(i as int), *facts),
        decreases n - i,
    {
        let name = registry.groups.key_at(i);
        let record = registry.groups.value_at(i);
        let ghost before = group_findings(all.take(i as int), *facts);
        proof {
            assert(all.take(i + 1).drop_last() =~= all.take(i as int));
            assert(all.take(i + 1).last() == (name@, *record));
        }
        match facts.groups.get(name) {
            None => {
                report(
                    out,
                    new_error(
                        CHECK_GROUP_REGISTRY,
                        name,
                        "registry group has no live group (managed group vanished)".to_owned(),
                    ),
                );
            },
            Some(live) => {
                match record.gid {
                    Some(gid) => {
                        if live.gid != gid && record.provenance == Provenance::Created {
                            report(
                                out,
                                new_error(
                                    CHECK_GROUP_REGISTRY,
                                    name,
                                    gid_message(
                                        live.gid,
                                        " != registry gid ",
                                        gid,
                                        " (managed group renumbered out of band)",
                                    ),
                                ),
                            );
                        }
                    },
                    None => {},
                }
            },
        }
        proof {
            assert(was + (before + as_list(group_finding(name@, *record, *facts))) =~= was
                + before + as_list(group_finding(name@, *record, *facts)));
            assert(was + before + Seq::<FindingView>::empty() =~= was + before);
        }
        i += 1;
    }
    proof {
        assert(all.take(i as int) =~= all);
    }
}

/// The added members that are no longer there.
fn check_members(name: &str, added: &[String], live: &[String], out: &mut Vec<Finding>)
    ensures
        finding_views(final(out)@) == finding_views(old(out)@) + member_drift(
            name@,
            text::views(added@),
            text::views(live@),
        ),
{
    let ghost all = text::views(added@);
    let ghost there = text::views(live@);
    let ghost was = finding_views(out@);
    let mut i: usize = 0;
    proof {
        assert(was + member_drift(name@, all.take(0), there) =~= was);
    }
    while i < added.len()
        invariant
            all == text::views(added@),
            there == text::views(live@),
            i <= added@.len(),
            finding_views(out@) == was + member_drift(name@, all.take(i as int), there),
        decreases added@.len() - i,
    {
        let member = &added[i];
        proof {
            assert(all.take(i + 1).drop_last() =~= all.take(i as int));
            assert(all.take(i + 1).last() == member@);
        }
        if !text::in_list(live, member) {
            let mut m = text::join3(
                "census-added member ",
                member,
                " is no longer in adopted group ",
            );
            m.append(name);
            m.append(" (drift; re-apply to repair)");
            report(out, new_warning(CHECK_ADOPTED_GROUP_DRIFT, name, m));
            proof {
                assert(finding_views(out@) =~= was + member_drift(
                    name@,
                    all.take(i + 1),
                    there,
                ));
            }
        }
        i += 1;
    }
    proof {
        assert(all.take(i as int) =~= all);
    }
}

/// One adopted group against what was seen when it was adopted.
fn check_adopted_group(name: &str, record: &ManagedGroup, facts: &HostFacts, out: &mut Vec<Finding>)
    ensures
        finding_views(final(out)@) == finding_views(old(out)@) + adopted_drift(
            name@,
            *record,
            *facts,
        ),
{
    let ghost was = finding_views(out@);
    let ghost none = Seq::<FindingView>::empty();
    proof {
        assert(was + none =~= was);
    }
    if record.provenance != Provenance::Adopted {
        return ;
    }
    let baseline = match &record.adopt_baseline {
        Some(b) => b,
        None => {
            return ;
        },
    };
    let ghost first = as_list(gid_drift(name@, baseline.gid, *facts));
    match facts.groups.get(name) {
        Some(live) => {
            match baseline.gid {
                Some(gid) => {
                    if live.gid != gid {
                        report(
                            out,
                            new_warning(
                                CHECK_ADOPTED_GROUP_DRIFT,
                                name,
                                gid_message(
                                    live.gid,
                                    " != adopt baseline gid ",
                                    gid,
                                    " (adopted group renumbered out of band)",
                                ),
                            ),
                        );
                    }
                },
                None => {},
            }
        },
        None => {},
    }
    proof {
        assert(finding_views(out@) =~= was + first);
    }
    let ghost second = as_list(fragment_drift(name@, *record, *facts));
    if record.sudo_commands.len() > 0 {
        match facts.group_sudoers_fragments.get(name) {
            Some(present) => {
                if !*present {
                    report(
                        out,
                        new_warning(
                            CHECK_ADOPTED_GROUP_DRIFT,
                            name,
                            text::join3(
                                "census-grp-",
                                name,
                                " sudoers fragment is gone but the registry records group sudo commands (drift; re-apply to repair)",
                            ),
                        ),
                    );
                }
            },
            None => {},
        }
    }
    proof {
        assert(finding_views(out@) =~= was + first + second);
    }
    match facts.group_members.get(name) {
        Some(live) => {
            proof {
                assert(text::views(live@).len() == live@.len());
            }
            if live.len() > 0 {
                check_members(name, record.members_added.as_slice(), live.as_slice(), out);
            }
        },
        None => {},
    }
    proof {
        assert(finding_views(out@) =~= was + adopted_drift(name@, *record, *facts));
    }
}

/// The adopted groups against what was seen when they were adopted.
fn check_adopted(registry: &Registry, facts: &HostFacts, out: &mut Vec<Finding>)
    ensures
        finding_views(final(out)@) == finding_views(old(out)@) + adopted_findings(
            registry.groups.seq(),
            *facts,
        ),
{
    let ghost all = registry.groups.seq();
    let ghost was = finding_views(out@);
    let n = registry.groups.len();
    let mut i: usize = 0;
    proof {
        assert(was + adopted_findings(all.take(0), *facts) =~= was);
    }
    while i < n
        invariant
            all == registry.groups.seq(),
            n == all.len(),
            i <= n,
            finding_views(out@) == was + adopted_findings(all.take(i as int), *facts),
        decreases n - i,
    {
        let name = registry.groups.key_at(i);
        let record = registry.groups.value_at(i);
        proof {
            assert(all.take(i + 1).drop_last() =~= all.take(i as int));
            assert(all.take(i + 1).last() == (name@, *record));
        }
        check_adopted_group(name, record, facts, out);
        proof {
            assert(finding_views(out@) =~= was + adopted_findings(all.take(i + 1), *facts));
        }
        i += 1;
    }
    proof {
        assert(all.take(i as int) =~= all);
    }
}

/// The file grants of one account against the live ACL entries.
fn check_grants(name: &str, record: &ManagedAccount, facts: &HostFacts, out: &mut Vec<Finding>)
    ensures
        finding_views(final(out)@) == finding_views(old(out)@) + grant_drift(
            name@,
            *record,
            record.file_grants@.len() as int,
            *facts,
        ),
{
    let ghost was = finding_views(out@);
    let mut i: usize = 0;
    proof {
        assert(was + grant_drift(name@, *record, 0, *facts) =~= was);
    }
    while i < record.file_grants.len()
        invariant
            i <= record.file_grants@.len(),
            finding_views(out@) == was + grant_drift(name@, *record, i as int, *facts),
        decreases record.file_grants@.len() - i,
    {
        let path = &record.file_grants[i].path;
        match facts.file_access_present(path, name) {
            Some(present) => {
                if !present {
                    report(
                        out,
                        new_warning(
                            CHECK_FILE_ACCESS_DRIFT,
                            name,
                            text::join3(
                                "managed file grant on ",
                                path,
                                " has no live ACL entry for the account (drift; re-apply to repair)",
                            ),
                        ),
                    );
                    proof {
                        assert(finding_views(out@) =~= was + grant_drift(
                            name@,
                            *record,
                            i + 1,
                            *facts,
                        ));
                    }
                }
            },
            None => {},
        }
        i += 1;
    }
}

/// The recorded file grants against the live ACL entries.
fn check_file_access(registry: &Registry, facts: &HostFacts, out: &mut Vec<Finding>)
    ensures
        finding_views(final(out)@) == finding_views(old(out)@) + acl_findings(
            registry.accounts.seq(),
            *facts,
        ),
{
    let ghost all = registry.accounts.seq();
    let ghost was = finding_views(out@);
    let n = registry.accounts.len();
    let mut i: usize = 0;
    proof {
        assert(was + acl_findings(all.take(0), *facts) =~= was);
    }
    while i < n
        invariant
            all == registry.accounts.seq(),
            n == all.len(),
            i <= n,
            finding_views(out@) == was + acl_findings(all.take(i as int), *facts),
        decreases n - i,
    {
        let name = registry.accounts.key_at(i);
        let record = registry.accounts.value_at(i);
        proof {
            assert(all.take(i + 1).drop_last() =~= all.take(i as int));
            assert(all.take(i + 1).last() == (name@, *record));
        }
        check_grants(name, record, facts, out);
        proof {
            assert(finding_views(out@) =~= was + acl_findings(all.take(i + 1), *facts));
        }
        i += 1;
    }
    proof {
        assert(all.take(i as int) =~= all);
    }
}

/// Whether one account can be logged in to.
fn check_reach_of(name: &str, facts: &HostFacts, out: &mut Vec<Finding>)
    ensures
        finding_views(final(out)@) == finding_views(old(out)@) + reach_findings_of(
            name@,
            *facts,
        ),
{
    let ghost was = finding_views(out@);
    if !facts.accounts.contains_key(name) {
        report(
            out,
            new_error(
                CHECK_UNREACHABLE,
                name,
                "managed role account is missing (cannot verify unreachability)".to_owned(),
            ),
        );
        return ;
    }
    let ghost first = as_list(password_finding(name@, *facts));
    if !facts.shadow_unreadable {
        match facts.locked.get(name) {
            Some(locked) => {
                if !*locked {
                    report(
                        out,
                        new_error(
                            CHECK_UNREACHABLE,
                            name,
                            "password is NOT locked (role account must be unreachable, §8)".to_owned(),
                        ),
                    );
                }
            },
            None => {
                report(
                    out,
                    new_error(
                        CHECK_UNREACHABLE,
                        name,
                        "shadow entry is absent; cannot confirm password lock".to_owned(),
                    ),
                );
            },
        }
    }
    proof {
        assert(finding_views(out@) =~= was + first);
    }
    if text::in_list(facts.authorized_keys.as_slice(), name) {
        report(
            out,
            new_error(
                CHECK_UNREACHABLE,
                name,
                "~/.ssh/authorized_keys present (alternative login path, §8)".to_owned(),
            ),
        );
    }
    proof {
        assert(finding_views(out@) =~= was + reach_findings_of(name@, *facts));
    }
}

/// That nobody can log in as a role account.
fn check_reach(registry: &Registry, facts: &HostFacts, out: &mut Vec<Finding>)
    ensures
        finding_views(final(out)@) == finding_views(old(out)@) + reach_findings(
            registry.accounts.seq(),
            *facts,
        ),
{
    let ghost all = registry.accounts.seq();
    let ghost was = finding_views(out@);
    let n = registry.accounts.len();
    let mut i: usize = 0;
    proof {
        assert(was + reach_findings(all.take(0), *facts) =~= was);
    }
    while i < n
        invariant
            all == registry.accounts.seq(),
            n == all.len(),
            i <= n,
            finding_views(out@) == was + reach_findings(all.take(i as int), *facts),
        decreases n - i,
    {
        let name = registry.accounts.key_at(i);
        proof {
            assert(all.take(i + 1).drop_last() =~= all.take(i as int));
            assert(all.take(i + 1).last().0 == name@);
        }
        check_reach_of(name, facts, out);
        proof {
            assert(finding_views(out@) =~= was + reach_findings(all.take(i + 1), *facts));
        }
        i += 1;
    }
    proof {
        assert(all.take(i as int) =~= all);
    }
}

/// Whether somebody outside the managed set can log in.
fn rescue_exists(registry: &Registry, facts: &HostFacts) -> (r: bool)
    ensures
        r == has_rescue(*registry, *facts),
{
    let mut i: usize = 0;
    while i < facts.login_capable.len()
        invariant
            i <= facts.login_capable@.len(),
            forall|j: int|
                0 <= j < i ==> registry.accounts.lookup(
                    (#[trigger] facts.login_capable@[j])@,
                ) is Some,
        decreases facts.login_capable@.len() - i,
    {
        if !registry.accounts.contains_key(&facts.login_capable[i]) {
            proof {
                assert(registry.accounts.lookup(facts.login_capable@[i as int]@) is None);
            }
            return true;
        }
        i += 1;
    }
    false
}

/// That somebody outside the managed set can log in.
fn check_lockout(registry: &Registry, facts: &HostFacts) -> (r: Option<Finding>)
    ensures
        opt_finding(r) == lockout_finding(*registry, *facts),
{
    if facts.shadow_unreadable {
        if registry.accounts.is_empty() {
            Some(
                new_warning(
                    CHECK_SHADOW_UNREADABLE,
                    "<system>",
                    "shadow database is unreadable (run as root to evaluate password-lock state); cannot evaluate the §7 anti-lockout rescue set".to_owned(),
                ),
            )
        } else {
            None
        }
    } else if !rescue_exists(registry, facts) {
        Some(
            new_warning(
                CHECK_ANTILOCKOUT,
                "<system>",
                "no login-capable account outside the managed set (potential lockout if the cert path fails, §7)".to_owned(),
            ),
        )
    } else {
        None
    }
}

/// The registry against the declaration.
fn check_drift(p: Option<&Plan>) -> (r: Option<Finding>)
    ensures
        opt_finding(r) == drift_finding(p),
{
    match p {
        None => None,
        Some(p) => {
            if p.is_empty() {
                return None;
            }
            let n = p.counts();
            let mut m = text::join3(
                "declaration drift: ",
                &text::decimal_string(n.creates),
                " create(s), ",
            );
            m.append(&text::decimal_string(n.updates));
            m.append(" update(s), ");
            m.append(&text::decimal_string(n.deletes));
            m.append(" delete(s)");
            Some(new_warning(CHECK_DRIFT, "<declaration>", m))
        },
    }
}

/// The contents of an optional finding.
pub open spec fn opt_finding(f: Option<Finding>) -> Option<FindingView> {
    match f {
        Some(f) => Some(f@),
        None => None,
    }
}

/// Append a finding, where there is one.
fn report_some(out: &mut Vec<Finding>, f: Option<Finding>)
    ensures
        finding_views(final(out)@) == finding_views(old(out)@) + as_list(opt_finding(f)),
{
    let ghost was = finding_views(out@);
    match f {
        Some(f) => report(out, f),
        None => {
            proof {
                assert(was + Seq::<FindingView>::empty() =~= was);
            }
        },
    }
}

/// Run all checks. `managed` is the registry, which is authoritative; `facts` is what was
/// read of the live system; `plan` is what would bring the system into conformance with
/// the declaration, where there is one.
pub fn run_doctor(managed: &Registry, facts: &HostFacts, plan: Option<&Plan>) -> (r: DoctorReport)
    ensures
        finding_views(r.findings@) == diagnosis(*managed, *facts, plan),
{
    let mut findings: Vec<Finding> = Vec::new();
    let ghost none = Seq::<FindingView>::empty();
    proof {
        assert(finding_views(findings@) =~= none);
        assert(none + account_findings(managed.accounts.seq(), *facts) =~= account_findings(
            managed.accounts.seq(),
            *facts,
        ));
    }
    check_accounts(managed, facts, &mut findings);
    check_markers(managed, facts, &mut findings);
    check_groups(managed, facts, &mut findings);
    check_adopted(managed, facts, &mut findings);
    check_file_access(managed, facts, &mut findings);
    let advisory = if facts.shadow_unreadable && !managed.accounts.is_empty() {
        Some(
            new_warning(
                CHECK_SHADOW_UNREADABLE,
                "<system>",
                "shadow database is unreadable (run as root to evaluate password-lock state); cannot confirm §8 unreachability for managed accounts".to_owned(),
            ),
        )
    } else {
        None
    };
    report_some(&mut findings, advisory);
    check_reach(managed, facts, &mut findings);
    report_some(&mut findings, check_lockout(managed, facts));
    report_some(&mut findings, check_drift(plan));
    DoctorReport { findings }
}

// ---------------------------------------------------------------------------
// The framework cross-reference
// ---------------------------------------------------------------------------

/// Severity of a framework lint.
#[derive(Debug, Clone, Copy, PartialEq, Eq, Structural)]
pub enum FrameworkLintSeverity {
    /// Advisory.
    Warning,
    /// Wrong.
    Error,
}

/// One lint of the framework cross-reference.
#[derive(Debug, PartialEq, Eq)]
pub struct FrameworkLint {
    /// Stable lint code.
    pub code: &'static str,
    /// How severe the lint is, to the framework.
    pub severity: FrameworkLintSeverity,
    /// Human-readable explanation.
    pub message: String,
}

/// The finding of a lint. The framework layer is advisory, so it is always a warning.
pub open spec fn lint_finding(l: FrameworkLint) -> FindingView {
    warning(
        CHECK_FRAMEWORK_INTEGRITY@,
        "<framework>"@,
        "["@ + l.code@ + "] "@ + l.message@,
    )
}

/// The findings of lints.
pub open spec fn lint_findings(lints: Seq<FrameworkLint>) -> Seq<FindingView> {
    lints.map_values(|l: FrameworkLint| lint_finding(l))
}

/// Turn framework lints into findings, always as warnings.
pub fn framework_findings(lints: &[FrameworkLint]) -> (out: Vec<Finding>)
    ensures
        finding_views(out@) == lint_findings(lints@),
{
    let ghost all = lint_findings(lints@);
    let mut out: Vec<Finding> = Vec::new();
    let mut i: usize = 0;
    proof {
        assert(finding_views(out@) =~= all.take(0));
    }
    while i < lints.len()
        invariant
            all == lint_findings(lints@),
            i <= lints@.len(),
            finding_views(out@) == all.take(i as int),
        decreases lints@.len() - i,
    {
        let ghost was = finding_views(out@);
        let l = &lints[i];
        let mut m = text::join3("[", l.code, "] ");
        m.append(&l.message);
        let f = new_warning(CHECK_FRAMEWORK_INTEGRITY, "<framework>", m);
        let ghost one = f@;
        report(&mut out, f);
        proof {
            assert(one == lint_finding(*l));
            assert(one == all[i as int]);
            assert(all.take(i + 1) =~= was.push(one));
        }
        i += 1;
    }
    proof {
        assert(all.take(i as int) =~= all);
    }
    out
}

/// Turn a warning of the framework loader into a finding.
pub fn framework_load_warning(message: &str) -> (r: Finding)
    ensures
        r@ == warning(CHECK_FRAMEWORK_INTEGRITY@, "<framework>"@, message@),
{
    new_warning(CHECK_FRAMEWORK_INTEGRITY, "<framework>", message.to_owned())
}

// ---------------------------------------------------------------------------
// Laws
// ---------------------------------------------------------------------------

/// What is joined of two lists fails where either does.
proof fn lemma_any_error(a: Seq<FindingView>, b: Seq<FindingView>)
    ensures
        any_error(a + b) == (any_error(a) || any_error(b)),
{
    let all = a + b;
    if any_error(a) {
        let i = choose|i: int| 0 <= i < a.len() && (#[trigger] a[i]).severity is Error;
        assert(all[i] == a[i]);
    }
    if any_error(b) {
        let i = choose|i: int| 0 <= i < b.len() && (#[trigger] b[i]).severity is Error;
        assert(all[a.len() + i] == b[i]);
    }
    if any_error(all) {
        let i = choose|i: int| 0 <= i < all.len() && (#[trigger] all[i]).severity is Error;
        if i < a.len() {
            assert(all[i] == a[i]);
        } else {
            assert(all[i] == b[i - a.len()]);
        }
    }
}

/// A member that is gone is a warning.
proof fn lemma_member_drift(name: Seq<char>, added: Seq<Seq<char>>, live: Seq<Seq<char>>)
    ensures
        !any_error(member_drift(name, added, live)),
    decreases added.len(),
{
    if added.len() > 0 {
        lemma_member_drift(name, added.drop_last(), live);
        let before = member_drift(name, added.drop_last(), live);
        if !text::listed(live, added.last()) {
            let one = seq![member_drift(name, added, live).last()];
            assert(member_drift(name, added, live) =~= before + one);
            lemma_any_error(before, one);
        }
    }
}

/// The drift of an adopted group is a warning.
proof fn lemma_adopted(groups: Seq<(Seq<char>, ManagedGroup)>, h: HostFacts)
    ensures
        !any_error(adopted_findings(groups, h)),
    decreases groups.len(),
{
    if groups.len() > 0 {
        lemma_adopted(groups.drop_last(), h);
        let (name, record) = groups.last();
        match record.adopt_baseline {
            Some(baseline) => {
                let gid = as_list(gid_drift(name, baseline.gid, h));
                let fragment = as_list(fragment_drift(name, record, h));
                lemma_any_error(gid, fragment);
                lemma_member_drift(name, text::views(record.members_added@), h.members(name));
                lemma_any_error(
                    gid + fragment,
                    member_drift(name, text::views(record.members_added@), h.members(name)),
                );
                lemma_any_error(gid + fragment, seq![]);
            },
            None => {},
        }
        lemma_any_error(
            adopted_findings(groups.drop_last(), h),
            adopted_drift(name, record, h),
        );
    }
}

/// A grant without its ACL entry is a warning.
proof fn lemma_grant_drift(name: Seq<char>, record: ManagedAccount, n: int, h: HostFacts)
    ensures
        !any_error(grant_drift(name, record, n, h)),
    decreases n,
{
    if n > 0 {
        lemma_grant_drift(name, record, n - 1, h);
        let before = grant_drift(name, record, n - 1, h);
        let now = grant_drift(name, record, n, h);
        if now.len() > before.len() {
            let one = seq![now.last()];
            assert(now =~= before + one);
            lemma_any_error(before, one);
        }
    }
}

/// Drifted grants are warnings.
proof fn lemma_acl_findings(accounts: Seq<(Seq<char>, ManagedAccount)>, h: HostFacts)
    ensures
        !any_error(acl_findings(accounts, h)),
    decreases accounts.len(),
{
    if accounts.len() > 0 {
        lemma_acl_findings(accounts.drop_last(), h);
        let (name, record) = accounts.last();
        let n = record.file_grants@.len() as int;
        lemma_grant_drift(name, record, n, h);
        lemma_any_error(acl_findings(accounts.drop_last(), h), grant_drift(name, record, n, h));
    }
}

/// Only a broken invariant fails the diagnosis: an account or group that is not as the
/// registry has it, a marker without a registry entry, or a reachable role account.
/// Drift, a missing rescue login and an unreadable shadow database are advisory.
pub proof fn only_broken_invariants_fail(registry: Registry, h: HostFacts, p: Option<&Plan>)
    ensures
        any_error(diagnosis(registry, h, p)) == {
            ||| any_error(account_findings(registry.accounts.seq(), h))
            ||| any_error(marker_findings(text::views(h.marked@), registry))
            ||| any_error(group_findings(registry.groups.seq(), h))
            ||| any_error(reach_findings(registry.accounts.seq(), h))
        },
{
    let a = account_findings(registry.accounts.seq(), h);
    let b = marker_findings(text::views(h.marked@), registry);
    let c = group_findings(registry.groups.seq(), h);
    let d = adopted_findings(registry.groups.seq(), h);
    let e = acl_findings(registry.accounts.seq(), h);
    let f = as_list(shadow_advisory(registry, h));
    let g = reach_findings(registry.accounts.seq(), h);
    let l = as_list(lockout_finding(registry, h));
    let m = as_list(drift_finding(p));
    lemma_adopted(registry.groups.seq(), h);
    lemma_acl_findings(registry.accounts.seq(), h);
    assert(!any_error(f));
    assert(!any_error(l));
    assert(!any_error(m));
    lemma_any_error(a, b);
    lemma_any_error(a + b, c);
    lemma_any_error(a + b + c, d);
    lemma_any_error(a + b + c + d, e);
    lemma_any_error(a + b + c + d + e, f);
    lemma_any_error(a + b + c + d + e + f, g);
    lemma_any_error(a + b + c + d + e + f + g, l);
    lemma_any_error(a + b + c + d + e + f + g + l, m);
}

/// A pending plan is drift, and never decides whether the diagnosis fails.
pub proof fn drift_never_fails(registry: Registry, h: HostFacts, p: Option<&Plan>)
    ensures
        any_error(diagnosis(registry, h, p)) == any_error(diagnosis(registry, h, None)),
{
    only_broken_invariants_fail(registry, h, p);
    only_broken_invariants_fail(registry, h, None);
}

/// Framework lints are advisory, whatever the framework makes of them.
pub proof fn framework_lints_never_fail(lints: Seq<FrameworkLint>)
    ensures
        !any_error(lint_findings(lints)),
{
}

/// An unreadable shadow database is one warning: it is never taken for an unlocked
/// password, nor for a missing rescue login.
pub proof fn an_unreadable_shadow_is_one_warning(registry: Registry, h: HostFacts, name: Seq<char>)
    requires
        h.shadow_unreadable,
    ensures
        password_finding(name, h) is None,
        as_list(shadow_advisory(registry, h)).len() + as_list(lockout_finding(registry, h)).len()
            == 1,
        lockout_finding(registry, h) matches Some(f) ==> f.check == CHECK_SHADOW_UNREADABLE@,
{
}

/// Whether a role account is missing, can be entered, or has no shadow entry in a shadow
/// database that can be read.
pub open spec fn reachable(name: Seq<char>, h: HostFacts) -> bool {
    ||| h.accounts.lookup(name) is None
    ||| text::listed(text::views(h.authorized_keys@), name)
    ||| !h.shadow_unreadable && h.locked.lookup(name) != Some(true)
}

/// The unreachability check has an error for each account that is reachable.
proof fn lemma_reachable(accounts: Seq<(Seq<char>, ManagedAccount)>, h: HostFacts, i: int)
    requires
        0 <= i < accounts.len(),
        reachable(accounts[i].0, h),
    ensures
        any_error(reach_findings(accounts, h)),
    decreases accounts.len(),
{
    let before = accounts.drop_last();
    let name = accounts.last().0;
    lemma_any_error(reach_findings(before, h), reach_findings_of(name, h));
    if i < before.len() {
        assert(before[i] == accounts[i]);
        lemma_reachable(before, h, i);
    } else {
        match h.accounts.lookup(name) {
            None => {
                assert(reach_findings_of(name, h)[0].severity is Error);
            },
            Some(_) => {
                let pw = as_list(password_finding(name, h));
                let keys = as_list(keys_finding(name, h));
                lemma_any_error(pw, keys);
                if text::listed(text::views(h.authorized_keys@), name) {
                    assert(keys[0].severity is Error);
                } else {
                    assert(pw[0].severity is Error);
                }
            },
        }
    }
}

/// A role account with an authorized key fails the diagnosis, and so does one that is
/// missing, or whose password is not known to be locked where the shadow database can be
/// read.
pub proof fn reachable_accounts_fail(registry: Registry, h: HostFacts, p: Option<&Plan>, i: int)
    requires
        0 <= i < registry.accounts.seq().len(),
        reachable(registry.accounts.seq()[i].0, h),
    ensures
        any_error(diagnosis(registry, h, p)),
{
    lemma_reachable(registry.accounts.seq(), h, i);
    only_broken_invariants_fail(registry, h, p);
}

/// Occurrences are what a multiset counts.
proof fn lemma_occurrences(list: Seq<Seq<char>>, t: Seq<char>)
    ensures
        occurrences(list, t) == list.to_multiset().count(t),
    decreases list.len(),
{
    broadcast use vstd::seq_lib::group_to_multiset_ensures;

    if list.len() > 0 {
        lemma_occurrences(list.drop_last(), t);
        assert(list =~= list.drop_last().push(list.last()));
    } else {
        assert(list =~= Seq::<Seq<char>>::empty());
    }
}

/// Group lists are compared without regard to order: they agree where they hold the same
/// names, each as often.
pub proof fn group_order_is_irrelevant(a: Seq<Seq<char>>, b: Seq<Seq<char>>)
    ensures
        same_strings(a, b) <==> a.to_multiset() =~= b.to_multiset(),
{
    assert forall|t: Seq<char>| #[trigger] occurrences(a, t) == a.to_multiset().count(t)
        && occurrences(b, t) == b.to_multiset().count(t) by {
        lemma_occurrences(a, t);
        lemma_occurrences(b, t);
    }
    if same_strings(a, b) {
        assert forall|t: Seq<char>| #[trigger] a.to_multiset().count(t) == b.to_multiset().count(
            t,
        ) by {
            assert(occurrences(a, t) == occurrences(b, t));
        }
        assert(a.to_multiset() =~= b.to_multiset());
    }
}

/// Every account of the registry is compared for itself, in order: what is said of a list is
/// what is said of its first part and then of the rest.
pub proof fn accounts_are_compared_one_by_one(
    a: Seq<(Seq<char>, ManagedAccount)>,
    b: Seq<(Seq<char>, ManagedAccount)>,
    h: HostFacts,
)
    ensures
        account_findings(Seq::<(Seq<char>, ManagedAccount)>::empty(), h).len() == 0,
        account_findings(a + b, h) == account_findings(a, h) + account_findings(b, h),
    decreases b.len(),
{
    if b.len() == 0 {
        assert(a + b =~= a);
        assert(account_findings(a, h) + account_findings(b, h) =~= account_findings(a, h));
    } else {
        accounts_are_compared_one_by_one(a, b.drop_last(), h);
        assert((a + b).drop_last() =~= a + b.drop_last());
        assert((a + b).last() == b.last());
        assert(account_findings(a + b, h) =~= account_findings(a, h) + account_findings(b, h));
    }
}

/// Every marked account is looked up for itself, in order.
pub proof fn markers_are_looked_up_one_by_one(
    a: Seq<Seq<char>>,
    b: Seq<Seq<char>>,
    registry: Registry,
)
    ensures
        marker_findings(Seq::<Seq<char>>::empty(), registry).len() == 0,
        marker_findings(a + b, registry) == marker_findings(a, registry)
            + marker_findings(b, registry),
    decreases b.len(),
{
    if b.len() == 0 {
        assert(a + b =~= a);
        assert(marker_findings(a, registry) + marker_findings(b, registry)
            =~= marker_findings(a, registry));
    } else {
        markers_are_looked_up_one_by_one(a, b.drop_last(), registry);
        assert((a + b).drop_last() =~= a + b.drop_last());
        assert((a + b).last() == b.last());
        assert(marker_findings(a + b, registry) =~= marker_findings(a, registry)
            + marker_findings(b, registry));
    }
}

/// Every group of the registry is compared for itself, in order.
pub proof fn groups_are_compared_one_by_one(
    a: Seq<(Seq<char>, ManagedGroup)>,
    b: Seq<(Seq<char>, ManagedGroup)>,
    h: HostFacts,
)
    ensures
        group_findings(Seq::<(Seq<char>, ManagedGroup)>::empty(), h).len() == 0,
        group_findings(a + b, h) == group_findings(a, h) + group_findings(b, h),
    decreases b.len(),
{
    if b.len() == 0 {
        assert(a + b =~= a);
        assert(group_findings(a, h) + group_findings(b, h) =~= group_findings(a, h));
    } else {
        groups_are_compared_one_by_one(a, b.drop_last(), h);
        assert((a + b).drop_last() =~= a + b.drop_last());
        assert((a + b).last() == b.last());
        assert(group_findings(a + b, h) =~= group_findings(a, h) + group_findings(b, h));
    }
}

/// The drift of every adopted group is told for itself, in order.
pub proof fn adopted_groups_drift_one_by_one(
    a: Seq<(Seq<char>, ManagedGroup)>,
    b: Seq<(Seq<char>, ManagedGroup)>,
    h: HostFacts,
)
    ensures
        adopted_findings(Seq::<(Seq<char>, ManagedGroup)>::empty(), h).len() == 0,
        adopted_findings(a + b, h) == adopted_findings(a, h) + adopted_findings(b, h),
    decreases b.len(),
{
    if b.len() == 0 {
        assert(a + b =~= a);
        assert(adopted_findings(a, h) + adopted_findings(b, h) =~= adopted_findings(a, h));
    } else {
        adopted_groups_drift_one_by_one(a, b.drop_last(), h);
        assert((a + b).drop_last() =~= a + b.drop_last());
        assert((a + b).last() == b.last());
        assert(adopted_findings(a + b, h) =~= adopted_findings(a, h) + adopted_findings(b, h));
    }
}

/// The grants of every account are looked at for themselves, in order.
pub proof fn grants_drift_account_by_account(
    a: Seq<(Seq<char>, ManagedAccount)>,
    b: Seq<(Seq<char>, ManagedAccount)>,
    h: HostFacts,
)
    ensures
        acl_findings(Seq::<(Seq<char>, ManagedAccount)>::empty(), h).len() == 0,
        acl_findings(a + b, h) == acl_findings(a, h) + acl_findings(b, h),
    decreases b.len(),
{
    if b.len() == 0 {
        assert(a + b =~= a);
        assert(acl_findings(a, h) + acl_findings(b, h) =~= acl_findings(a, h));
    } else {
        grants_drift_account_by_account(a, b.drop_last(), h);
        assert((a + b).drop_last() =~= a + b.drop_last());
        assert((a + b).last() == b.last());
        assert(acl_findings(a + b, h) =~= acl_findings(a, h) + acl_findings(b, h));
    }
}

/// Whether an account can be entered is told of every account for itself, in order.
pub proof fn accounts_are_reached_one_by_one(
    a: Seq<(Seq<char>, ManagedAccount)>,
    b: Seq<(Seq<char>, ManagedAccount)>,
    h: HostFacts,
)
    ensures
        reach_findings(Seq::<(Seq<char>, ManagedAccount)>::empty(), h).len() == 0,
        reach_findings(a + b, h) == reach_findings(a, h) + reach_findings(b, h),
    decreases b.len(),
{
    if b.len() == 0 {
        assert(a + b =~= a);
        assert(reach_findings(a, h) + reach_findings(b, h) =~= reach_findings(a, h));
    } else {
        accounts_are_reached_one_by_one(a, b.drop_last(), h);
        assert((a + b).drop_last() =~= a + b.drop_last());
        assert((a + b).last() == b.last());
        assert(reach_findings(a + b, h) =~= reach_findings(a, h) + reach_findings(b, h));
    }
}

/// Every added member is looked for, in order: what is said of a list is what is said of
/// its first part and then of the rest. One member is drift where the live list lacks it.
pub proof fn members_drift_one_by_one(
    name: Seq<char>,
    a: Seq<Seq<char>>,
    b: Seq<Seq<char>>,
    live: Seq<Seq<char>>,
    member: Seq<char>,
)
    ensures
        member_drift(name, a + b, live) == member_drift(name, a, live) + member_drift(
            name,
            b,
            live,
        ),
        live.contains(member) ==> member_drift(name, seq![member], live).len() == 0,
        !live.contains(member) ==> member_drift(name, seq![member], live) == seq![
            FindingView {
                severity: Severity::Warn,
                check: "adopted-group-drift"@,
                target: name,
                message: "census-added member "@ + member + " is no longer in adopted group "@
                    + name + " (drift; re-apply to repair)"@,
            },
        ],
    decreases b.len(),
{
    reveal_with_fuel(member_drift, 2);
    text::listed_is_contained(live, member);
    assert(seq![member].drop_last() =~= seq![]);
    assert(seq![member].last() == member);
    assert(member_drift(name, seq![], live) =~= seq![]);
    if !live.contains(member) {
        assert(member_drift(name, seq![member], live).len() == 1);
        assert(member_drift(name, seq![member], live) =~= seq![
            member_drift(name, seq![member], live)[0],
        ]);
    }
    if b.len() == 0 {
        assert(a + b =~= a);
        assert(member_drift(name, a, live) + member_drift(name, b, live) =~= member_drift(
            name,
            a,
            live,
        ));
    } else {
        members_drift_one_by_one(name, a, b.drop_last(), live, member);
        assert((a + b).drop_last() =~= a + b.drop_last());
        assert((a + b).last() == b.last());
        assert(member_drift(name, a + b, live) =~= member_drift(name, a, live) + member_drift(
            name,
            b,
            live,
        ));
    }
}

/// The parts are joined with the separator between each two, and nowhere else.
pub proof fn parts_are_joined(a: Seq<Seq<char>>, b: Seq<Seq<char>>, sep: Seq<char>, one: Seq<char>)
    ensures
        joined(Seq::<Seq<char>>::empty(), sep).len() == 0,
        joined(seq![one], sep) == one,
        a.len() > 0 && b.len() > 0 ==> joined(a + b, sep) == joined(a, sep) + sep + joined(b, sep),
    decreases b.len(),
{
    if a.len() > 0 && b.len() > 0 {
        assert((a + b).drop_last() =~= a + b.drop_last());
        assert((a + b).last() == b.last());
        if b.len() == 1 {
            assert(a + b.drop_last() =~= a);
        } else {
            parts_are_joined(a, b.drop_last(), sep, one);
            assert(joined(a + b, sep) =~= joined(a, sep) + sep + joined(b, sep));
        }
    }
}

/// The form of a list of strings: brackets round them, a comma and a space between them,
/// each in the form of a string.
pub proof fn lists_are_shown_in_brackets(a: Seq<Seq<char>>, one: Seq<char>)
    ensures
        list_text(Seq::<Seq<char>>::empty()) == seq!['[', ']'],
        list_text(seq![one]) == seq!['['] + text::debug_text(one) + seq![']'],
        a.len() > 0 ==> list_text(a.push(one)) == list_text(a).drop_last() + seq![',', ' ']
            + text::debug_text(one) + seq![']'],
{
    reveal_strlit("[");
    reveal_strlit("]");
    reveal_strlit(", ");
    let none = Seq::<Seq<char>>::empty();
    assert(quoted(none) =~= none);
    assert(list_text(none) =~= seq!['[', ']']);
    assert(quoted(seq![one]) =~= seq![text::debug_text(one)]);
    assert(list_text(seq![one]) =~= seq!['['] + text::debug_text(one) + seq![']']);
    if a.len() > 0 {
        let q = quoted(a);
        assert(quoted(a.push(one)) =~= q + seq![text::debug_text(one)]);
        parts_are_joined(q, seq![text::debug_text(one)], ", "@, text::debug_text(one));
        assert(list_text(a.push(one)) =~= list_text(a).drop_last() + seq![',', ' ']
            + text::debug_text(one) + seq![']']);
    }
}

/// Whether a live account is as its record has it: the same uid, the same shell, and the
/// same groups in whatever order.
pub open spec fn as_recorded(facts: AccountFacts, record: ManagedAccount) -> bool {
    &&& facts.uid == record.uid
    &&& facts.shell@ == record.shell@
    &&& text::views(facts.groups@).to_multiset() == text::views(record.groups@).to_multiset()
}

/// The differences of an account are told in order, uid, shell and groups, each where there
/// is one and only there.
pub proof fn differences_are_told(facts: AccountFacts, record: ManagedAccount)
    ensures
        account_diffs(facts, record).len() == 0 <==> as_recorded(facts, record),
        ({
            let d = account_diffs(facts, record);
            let uid = "uid "@ + text::decimal(facts.uid as nat) + " != registry "@
                + text::decimal(record.uid as nat);
            let shell = "shell "@ + text::debug_text(facts.shell@) + " != registry "@
                + text::debug_text(record.shell@);
            let groups = "groups "@ + list_text(text::views(facts.groups@)) + " != registry "@
                + list_text(text::views(record.groups@));
            let u: int = if facts.uid != record.uid {
                1
            } else {
                0
            };
            let s: int = if facts.shell@ != record.shell@ {
                1
            } else {
                0
            };
            let g: int = if text::views(facts.groups@).to_multiset() != text::views(
                record.groups@,
            ).to_multiset() {
                1
            } else {
                0
            };
            &&& d.len() == u + s + g
            &&& u == 1 ==> d[0] == uid
            &&& s == 1 ==> d[u] == shell
            &&& g == 1 ==> d[u + s] == groups
        }),
{
    group_order_is_irrelevant(text::views(facts.groups@), text::views(record.groups@));
}

/// One account: an error where it is not there, an error that tells the differences where
/// it is not as recorded, and nothing otherwise.
pub proof fn one_account(name: Seq<char>, record: ManagedAccount, h: HostFacts)
    ensures
        match h.accounts.lookup(name) {
            None => account_findings(seq![(name, record)], h) == seq![
                FindingView {
                    severity: Severity::Error,
                    check: "registry-integrity"@,
                    target: name,
                    message: "registry entry has no live account (managed object vanished)"@,
                },
            ],
            Some(facts) => if as_recorded(facts, record) {
                account_findings(seq![(name, record)], h).len() == 0
            } else {
                account_findings(seq![(name, record)], h) == seq![
                    FindingView {
                        severity: Severity::Error,
                        check: "registry-integrity"@,
                        target: name,
                        message: "live account differs from registry: "@ + joined(
                            account_diffs(facts, record),
                            "; "@,
                        ),
                    },
                ]
            },
        },
{
    reveal_with_fuel(account_findings, 2);
    assert(seq![(name, record)].drop_last() =~= seq![]);
    assert(seq![(name, record)].last() == (name, record));
    let none = Seq::<FindingView>::empty();
    let out = as_list(account_finding(name, record, h));
    assert(account_findings(seq![(name, record)], h) =~= none + out);
    assert(none + out =~= out);
    match h.accounts.lookup(name) {
        Some(facts) => {
            differences_are_told(facts, record);
        },
        None => {},
    }
}

/// One marked account: an error where the registry does not have it.
pub proof fn one_marker(name: Seq<char>, registry: Registry)
    ensures
        registry.accounts.lookup(name) is Some ==> marker_findings(seq![name], registry).len() == 0,
        registry.accounts.lookup(name) is None ==> marker_findings(seq![name], registry) == seq![
            FindingView {
                severity: Severity::Error,
                check: "registry-integrity"@,
                target: name,
                message:
                    "account carries a Census GECOS marker but is not in the registry (possible spoof; registry is authoritative)"@,
            },
        ],
{
    reveal_with_fuel(marker_findings, 2);
    assert(seq![name].drop_last() =~= seq![]);
    assert(seq![name].last() == name);
    if registry.accounts.lookup(name) is None {
        assert(marker_findings(seq![name], registry) =~= seq![
            marker_findings(seq![name], registry)[0],
        ]);
    }
}

/// One group: an error where it is not there, an error where Census created it with a gid
/// that it no longer has, and nothing otherwise.
pub proof fn one_group(name: Seq<char>, record: ManagedGroup, h: HostFacts)
    ensures
        match h.groups.lookup(name) {
            None => group_findings(seq![(name, record)], h) == seq![
                FindingView {
                    severity: Severity::Error,
                    check: "group-registry-integrity"@,
                    target: name,
                    message: "registry group has no live group (managed group vanished)"@,
                },
            ],
            Some(facts) => if record.provenance is Created && record.gid is Some && record.gid->0
                != facts.gid {
                group_findings(seq![(name, record)], h) == seq![
                    FindingView {
                        severity: Severity::Error,
                        check: "group-registry-integrity"@,
                        target: name,
                        message: "live gid "@ + text::decimal(facts.gid as nat)
                            + " != registry gid "@ + text::decimal(record.gid->0 as nat)
                            + " (managed group renumbered out of band)"@,
                    },
                ]
            } else {
                group_findings(seq![(name, record)], h).len() == 0
            },
        },
{
    reveal_with_fuel(group_findings, 2);
    assert(seq![(name, record)].drop_last() =~= seq![]);
    assert(seq![(name, record)].last() == (name, record));
    let none = Seq::<FindingView>::empty();
    let out = as_list(group_finding(name, record, h));
    assert(group_findings(seq![(name, record)], h) =~= none + out);
    assert(none + out =~= out);
}

/// One adopted group with a baseline: first the gid that it no longer has, then the sudoers
/// fragment that was seen to be gone although sudo commands are recorded, then the added
/// members that a live list, where there is one, lacks. Nothing of any other group.
pub proof fn one_adopted_group(name: Seq<char>, record: ManagedGroup, h: HostFacts)
    ensures
        !(record.provenance is Adopted) || record.adopt_baseline is None ==> adopted_findings(
            seq![(name, record)],
            h,
        ).len() == 0,
        record.provenance is Adopted && record.adopt_baseline is Some ==> {
            let out = adopted_findings(seq![(name, record)], h);
            let base = record.adopt_baseline->0.gid;
            let live = h.groups.lookup(name);
            let g: int = if base is Some && live is Some && base->0 != live->0.gid {
                1
            } else {
                0
            };
            let f: int = if record.sudo_commands@.len() > 0
                && h.group_sudoers_fragments.lookup(name)
                == Some(false) {
                1
            } else {
                0
            };
            &&& g == 1 ==> out.len() > 0 && out[0] == (FindingView {
                severity: Severity::Warn,
                check: "adopted-group-drift"@,
                target: name,
                message: "live gid "@ + text::decimal(live->0.gid as nat)
                    + " != adopt baseline gid "@ + text::decimal(base->0 as nat)
                    + " (adopted group renumbered out of band)"@,
            })
            &&& f == 1 ==> out.len() > g && out[g] == (FindingView {
                severity: Severity::Warn,
                check: "adopted-group-drift"@,
                target: name,
                message: "census-grp-"@ + name
                    + " sudoers fragment is gone but the registry records group sudo commands (drift; re-apply to repair)"@,
            })
            &&& out.len() >= g + f
            &&& h.members(name).len() == 0 ==> out.len() == g + f
            &&& h.members(name).len() > 0 ==> out.skip(g + f) == member_drift(
                name,
                text::views(record.members_added@),
                h.members(name),
            )
        },
{
    reveal_with_fuel(adopted_findings, 2);
    assert(seq![(name, record)].drop_last() =~= seq![]);
    assert(seq![(name, record)].last() == (name, record));
    let none = Seq::<FindingView>::empty();
    let one = adopted_drift(name, record, h);
    assert(adopted_findings(seq![(name, record)], h) =~= none + one);
    assert(none + one =~= one);
    if record.provenance is Adopted && record.adopt_baseline is Some {
        let base = record.adopt_baseline->0.gid;
        let head = as_list(gid_drift(name, base, h)) + as_list(fragment_drift(name, record, h));
        let tail = member_drift(name, text::views(record.members_added@), h.members(name));
        if h.members(name).len() > 0 {
            assert(one =~= head + tail);
            assert(one.skip(head.len() as int) =~= tail);
        } else {
            assert(one =~= head);
        }
    }
}

/// One grant more: it is drift where its entry was looked for and seen to be missing, and
/// only there.
pub proof fn one_grant_more(name: Seq<char>, record: ManagedAccount, n: int, h: HostFacts)
    requires
        0 <= n < record.file_grants@.len(),
    ensures
        grant_drift(name, record, 0, h).len() == 0,
        inspect::acl_fact(h.file_acls@, record.file_grants@[n].path@, name) != Some(false)
            ==> grant_drift(name, record, n + 1, h) == grant_drift(name, record, n, h),
        inspect::acl_fact(h.file_acls@, record.file_grants@[n].path@, name) == Some(false)
            ==> grant_drift(name, record, n + 1, h) == grant_drift(name, record, n, h).push(
            FindingView {
                severity: Severity::Warn,
                check: "file-access-drift"@,
                target: name,
                message: "managed file grant on "@ + record.file_grants@[n].path@
                    + " has no live ACL entry for the account (drift; re-apply to repair)"@,
            },
        ),
        acl_findings(seq![(name, record)], h) == grant_drift(
            name,
            record,
            record.file_grants@.len() as int,
            h,
        ),
{
    reveal_with_fuel(acl_findings, 2);
    assert(seq![(name, record)].drop_last() =~= seq![]);
    assert(seq![(name, record)].last() == (name, record));
    let out = grant_drift(name, record, record.file_grants@.len() as int, h);
    assert(Seq::<FindingView>::empty() + out =~= out);
}

/// One account that could be entered: an error where it is missing; else one where the
/// shadow database can be read and does not say that the password is locked, and one where
/// it has an `authorized_keys` file.
pub proof fn one_account_entered(name: Seq<char>, record: ManagedAccount, h: HostFacts)
    ensures
        ({
            let out = reach_findings(seq![(name, record)], h);
            let missing = h.accounts.lookup(name) is None;
            let open = !h.shadow_unreadable && h.locked.lookup(name) != Some(true);
            let keys = text::views(h.authorized_keys@).contains(name);
            let n: int = if missing {
                1
            } else {
                (if open {
                    1int
                } else {
                    0
                }) + (if keys {
                    1int
                } else {
                    0
                })
            };
            &&& out.len() == n
            &&& forall|i: int|
                0 <= i < n ==> (#[trigger] out[i]).severity is Error && out[i].check
                    == "unreachability"@ && out[i].target == name
            &&& missing ==> out[0].message
                == "managed role account is missing (cannot verify unreachability)"@
            &&& !missing && open && h.locked.lookup(name) == Some(false) ==> out[0].message
                == "password is NOT locked (role account must be unreachable, §8)"@
            &&& !missing && open && h.locked.lookup(name) is None ==> out[0].message
                == "shadow entry is absent; cannot confirm password lock"@
            &&& !missing && keys ==> out[n - 1].message
                == "~/.ssh/authorized_keys present (alternative login path, §8)"@
        }),
{
    reveal_with_fuel(reach_findings, 2);
    assert(seq![(name, record)].drop_last() =~= seq![]);
    assert(seq![(name, record)].last() == (name, record));
    text::listed_is_contained(text::views(h.authorized_keys@), name);
    let out = reach_findings_of(name, h);
    assert(reach_findings(seq![(name, record)], h) =~= Seq::<FindingView>::empty() + out);
    assert(Seq::<FindingView>::empty() + out =~= out);
}

/// Without a login outside the managed set a readable shadow database gives a warning; an
/// unreadable one gives a warning of its own; and a plan with steps gives one that counts
/// them.
pub proof fn the_system_warnings(registry: Registry, h: HostFacts, p: Option<&Plan>)
    ensures
        shadow_advisory(registry, h) is Some <==> h.shadow_unreadable
            && registry.accounts.seq().len() > 0,
        shadow_advisory(registry, h) matches Some(f) ==> f.severity is Warn && f.check
            == "shadow-unreadable"@ && f.target == "<system>"@,
        lockout_finding(registry, h) is Some <==> if h.shadow_unreadable {
            registry.accounts.seq().len() == 0
        } else {
            forall|name: Seq<char>| #[trigger]
                text::views(h.login_capable@).contains(name) ==> registry.accounts.lookup(
                    name,
                ) is Some
        },
        lockout_finding(registry, h) matches Some(f) ==> f.severity is Warn && f.target
            == "<system>"@ && f.check == (if h.shadow_unreadable {
            "shadow-unreadable"@
        } else {
            "anti-lockout"@
        }),
        drift_finding(p) is Some <==> p is Some && p->0.actions@.len() > 0,
        drift_finding(p) matches Some(f) ==> f == (FindingView {
            severity: Severity::Warn,
            check: "drift"@,
            target: "<declaration>"@,
            message: "declaration drift: "@ + text::decimal(plan::creates(p->0.actions@))
                + " create(s), "@ + text::decimal(plan::updates(p->0.actions@)) + " update(s), "@
                + text::decimal(plan::deletes(p->0.actions@)) + " delete(s)"@,
        }),
{
    let capable = text::views(h.login_capable@);
    if has_rescue(registry, h) {
        let i = choose|i: int|
            0 <= i < h.login_capable@.len() && registry.accounts.lookup(
                (#[trigger] h.login_capable@[i])@,
            ) is None;
        assert(capable[i] == h.login_capable@[i]@);
        assert(capable.contains(h.login_capable@[i]@));
    } else {
        assert forall|name: Seq<char>| #[trigger]
            capable.contains(name) implies registry.accounts.lookup(name) is Some by {
            let i = choose|i: int| 0 <= i < capable.len() && capable[i] == name;
            assert(h.login_capable@[i]@ == name);
        }
    }
}

/// Whether every finding of a list is of one check.
spec fn all_of(list: Seq<FindingView>, check: Seq<char>) -> bool {
    forall|i: int| 0 <= i < list.len() ==> (#[trigger] list[i]).check == check
}

proof fn lemma_all_of(a: Seq<FindingView>, b: Seq<FindingView>, check: Seq<char>)
    requires
        all_of(a, check),
        all_of(b, check),
    ensures
        all_of(a + b, check),
{
    assert forall|i: int| 0 <= i < (a + b).len() implies (#[trigger] (a + b)[i]).check == check by {
        if i < a.len() {
            assert((a + b)[i] == a[i]);
        } else {
            assert((a + b)[i] == b[i - a.len()]);
        }
    }
}

proof fn lemma_checks_account_findings(list: Seq<(Seq<char>, ManagedAccount)>, h: HostFacts)
    ensures
        all_of(account_findings(list, h), CHECK_REGISTRY@),
    decreases list.len(),
{
    if list.len() > 0 {
        lemma_checks_account_findings(list.drop_last(), h);
    }
}

proof fn lemma_checks_marker_findings(list: Seq<Seq<char>>, registry: Registry)
    ensures
        all_of(marker_findings(list, registry), CHECK_REGISTRY@),
    decreases list.len(),
{
    if list.len() > 0 {
        lemma_checks_marker_findings(list.drop_last(), registry);
    }
}

proof fn lemma_checks_group_findings(list: Seq<(Seq<char>, ManagedGroup)>, h: HostFacts)
    ensures
        all_of(group_findings(list, h), CHECK_GROUP_REGISTRY@),
    decreases list.len(),
{
    if list.len() > 0 {
        lemma_checks_group_findings(list.drop_last(), h);
    }
}

proof fn lemma_checks_reach_findings(list: Seq<(Seq<char>, ManagedAccount)>, h: HostFacts)
    ensures
        all_of(reach_findings(list, h), CHECK_UNREACHABLE@),
    decreases list.len(),
{
    if list.len() > 0 {
        lemma_checks_reach_findings(list.drop_last(), h);
    }
}

proof fn lemma_checks_member_drift(name: Seq<char>, added: Seq<Seq<char>>, live: Seq<Seq<char>>)
    ensures
        all_of(member_drift(name, added, live), CHECK_ADOPTED_GROUP_DRIFT@),
    decreases added.len(),
{
    if added.len() > 0 {
        lemma_checks_member_drift(name, added.drop_last(), live);
    }
}

proof fn lemma_checks_grant_drift(name: Seq<char>, record: ManagedAccount, n: int, h: HostFacts)
    ensures
        all_of(grant_drift(name, record, n, h), CHECK_FILE_ACCESS_DRIFT@),
    decreases n,
{
    if n > 0 {
        lemma_checks_grant_drift(name, record, n - 1, h);
    }
}

proof fn lemma_checks_adopted_findings(list: Seq<(Seq<char>, ManagedGroup)>, h: HostFacts)
    ensures
        all_of(adopted_findings(list, h), CHECK_ADOPTED_GROUP_DRIFT@),
    decreases list.len(),
{
    if list.len() > 0 {
        lemma_checks_adopted_findings(list.drop_last(), h);
        let (name, record) = list.last();
        lemma_checks_member_drift(name, text::views(record.members_added@), h.members(name));
        assert(all_of(adopted_drift(name, record, h), CHECK_ADOPTED_GROUP_DRIFT@));
        lemma_all_of(
            adopted_findings(list.drop_last(), h),
            adopted_drift(name, record, h),
            CHECK_ADOPTED_GROUP_DRIFT@,
        );
    }
}

proof fn lemma_checks_acl_findings(list: Seq<(Seq<char>, ManagedAccount)>, h: HostFacts)
    ensures
        all_of(acl_findings(list, h), CHECK_FILE_ACCESS_DRIFT@),
    decreases list.len(),
{
    if list.len() > 0 {
        lemma_checks_acl_findings(list.drop_last(), h);
        let (name, record) = list.last();
        let n = record.file_grants@.len() as int;
        lemma_checks_grant_drift(name, record, n, h);
        lemma_all_of(
            acl_findings(list.drop_last(), h),
            grant_drift(name, record, n, h),
            CHECK_FILE_ACCESS_DRIFT@,
        );
    }
}

/// The checks differ by name.
proof fn lemma_check_names()
    ensures
        CHECK_REGISTRY@.len() == 18,
        CHECK_GROUP_REGISTRY@.len() == 24,
        CHECK_UNREACHABLE@.len() == 14,
        CHECK_ANTILOCKOUT@.len() == 12,
        CHECK_SHADOW_UNREADABLE@.len() == 17 && CHECK_SHADOW_UNREADABLE@[0] == 's',
        CHECK_DRIFT@.len() == 5,
        CHECK_FILE_ACCESS_DRIFT@.len() == 17 && CHECK_FILE_ACCESS_DRIFT@[0] == 'f',
        CHECK_ADOPTED_GROUP_DRIFT@.len() == 19,
{
    reveal_strlit("registry-integrity");
    reveal_strlit("group-registry-integrity");
    reveal_strlit("unreachability");
    reveal_strlit("anti-lockout");
    reveal_strlit("shadow-unreadable");
    reveal_strlit("drift");
    reveal_strlit("file-access-drift");
    reveal_strlit("adopted-group-drift");
}

/// What two lists hold together is what either holds.
proof fn lemma_contains_both(a: Seq<FindingView>, b: Seq<FindingView>, f: FindingView)
    ensures
        (a + b).contains(f) <==> a.contains(f) || b.contains(f),
{
    let all = a + b;
    if a.contains(f) {
        let i = choose|i: int| 0 <= i < a.len() && a[i] == f;
        assert(all[i] == f);
    }
    if b.contains(f) {
        let i = choose|i: int| 0 <= i < b.len() && b[i] == f;
        assert(all[a.len() + i] == f);
    }
    if all.contains(f) {
        let i = choose|i: int| 0 <= i < all.len() && all[i] == f;
        if i < a.len() {
            assert(a[i] == f);
        } else {
            assert(b[i - a.len()] == f);
        }
    }
}

/// Every finding of a diagnosis comes from the check that it names, and what a check finds
/// is in the diagnosis, as often as it was found.
pub proof fn findings_come_from_their_check(
    registry: Registry,
    h: HostFacts,
    p: Option<&Plan>,
    f: FindingView,
)
    ensures
        diagnosis(registry, h, p).contains(f) && f.check == "registry-integrity"@
            <==> account_findings(registry.accounts.seq(), h).contains(f) || marker_findings(
            text::views(h.marked@),
            registry,
        ).contains(f),
        diagnosis(registry, h, p).contains(f) && f.check == "group-registry-integrity"@
            <==> group_findings(registry.groups.seq(), h).contains(f),
        diagnosis(registry, h, p).contains(f) && f.check == "adopted-group-drift"@
            <==> adopted_findings(registry.groups.seq(), h).contains(f),
        diagnosis(registry, h, p).contains(f) && f.check == "file-access-drift"@
            <==> acl_findings(registry.accounts.seq(), h).contains(f),
        diagnosis(registry, h, p).contains(f) && f.check == "unreachability"@ <==> reach_findings(
            registry.accounts.seq(),
            h,
        ).contains(f),
        diagnosis(registry, h, p).contains(f) && (f.check == "shadow-unreadable"@ || f.check
            == "anti-lockout"@) <==> shadow_advisory(registry, h) == Some(f) || lockout_finding(
            registry,
            h,
        ) == Some(f),
        diagnosis(registry, h, p).contains(f) && f.check == "drift"@ <==> drift_finding(p) == Some(
            f,
        ),
        diagnosis(registry, h, p).len() == account_findings(registry.accounts.seq(), h).len()
            + marker_findings(text::views(h.marked@), registry).len() + group_findings(
            registry.groups.seq(),
            h,
        ).len() + adopted_findings(registry.groups.seq(), h).len() + acl_findings(
            registry.accounts.seq(),
            h,
        ).len() + (if shadow_advisory(registry, h) is Some {
            1int
        } else {
            0
        }) + reach_findings(registry.accounts.seq(), h).len() + (if lockout_finding(
            registry,
            h,
        ) is Some {
            1int
        } else {
            0
        }) + (if drift_finding(p) is Some {
            1int
        } else {
            0
        }),
{
    let a = account_findings(registry.accounts.seq(), h);
    let b = marker_findings(text::views(h.marked@), registry);
    let c = group_findings(registry.groups.seq(), h);
    let d = adopted_findings(registry.groups.seq(), h);
    let e = acl_findings(registry.accounts.seq(), h);
    let s = as_list(shadow_advisory(registry, h));
    let g = reach_findings(registry.accounts.seq(), h);
    let l = as_list(lockout_finding(registry, h));
    let m = as_list(drift_finding(p));
    lemma_check_names();
    lemma_checks_account_findings(registry.accounts.seq(), h);
    lemma_checks_marker_findings(text::views(h.marked@), registry);
    lemma_checks_group_findings(registry.groups.seq(), h);
    lemma_checks_adopted_findings(registry.groups.seq(), h);
    lemma_checks_acl_findings(registry.accounts.seq(), h);
    lemma_checks_reach_findings(registry.accounts.seq(), h);
    lemma_contains_both(a, b, f);
    lemma_contains_both(a + b, c, f);
    lemma_contains_both(a + b + c, d, f);
    lemma_contains_both(a + b + c + d, e, f);
    lemma_contains_both(a + b + c + d + e, s, f);
    lemma_contains_both(a + b + c + d + e + s, g, f);
    lemma_contains_both(a + b + c + d + e + s + g, l, f);
    lemma_contains_both(a + b + c + d + e + s + g + l, m, f);
    assert(s.contains(f) <==> shadow_advisory(registry, h) == Some(f)) by {
        if shadow_advisory(registry, h) == Some(f) {
            assert(s[0] == f);
        }
    }
    assert(l.contains(f) <==> lockout_finding(registry, h) == Some(f)) by {
        if lockout_finding(registry, h) == Some(f) {
            assert(l[0] == f);
        }
    }
    assert(m.contains(f) <==> drift_finding(p) == Some(f)) by {
        if drift_finding(p) == Some(f) {
            assert(m[0] == f);
        }
    }
}

/// What the registry check says of an account of the list is in what it says of the list.
proof fn lemma_account_findings(
    accounts: Seq<(Seq<char>, ManagedAccount)>,
    h: HostFacts,
    f: FindingView,
)
    ensures
        account_findings(accounts, h).contains(f) <==> exists|i: int|
            0 <= i < accounts.len() && #[trigger] account_findings(
                seq![accounts[i]],
                h,
            ).contains(f),
    decreases accounts.len(),
{
    if accounts.len() > 0 {
        let before = accounts.drop_last();
        let last = accounts.last();
        lemma_account_findings(before, h, f);
        accounts_are_compared_one_by_one(before, seq![last], h);
        assert(before + seq![last] =~= accounts);
        lemma_contains_both(account_findings(before, h), account_findings(seq![last], h), f);
        if account_findings(before, h).contains(f) {
            let i = choose|i: int|
                0 <= i < before.len()
                    && #[trigger] account_findings(seq![before[i]], h).contains(f);
            assert(before[i] == accounts[i]);
        }
        if account_findings(seq![last], h).contains(f) {
            assert(accounts[accounts.len() - 1] == last);
        }
        if exists|i: int|
            0 <= i < accounts.len()
                && #[trigger] account_findings(seq![accounts[i]], h).contains(f) {
            let i = choose|i: int|
                0 <= i < accounts.len() && #[trigger] account_findings(
                    seq![accounts[i]],
                    h,
                ).contains(f);
            if i < before.len() {
                assert(before[i] == accounts[i]);
            }
        }
    }
}

/// Every account of the registry that is not live as it is recorded is an error of the
/// registry check, under its name, and the diagnosis fails.
pub proof fn every_broken_account_is_an_error(
    registry: Registry,
    h: HostFacts,
    p: Option<&Plan>,
    i: int,
)
    requires
        0 <= i < registry.accounts.seq().len(),
        h.accounts.lookup(registry.accounts.seq()[i].0) matches Some(facts) ==> !as_recorded(
            facts,
            registry.accounts.seq()[i].1,
        ),
    ensures
        exists|k: int|
            {
                &&& 0 <= k < diagnosis(registry, h, p).len()
                &&& (#[trigger] diagnosis(registry, h, p)[k]).severity is Error
                &&& diagnosis(registry, h, p)[k].check == "registry-integrity"@
                &&& diagnosis(registry, h, p)[k].target == registry.accounts.seq()[i].0
            },
        any_error(diagnosis(registry, h, p)),
{
    let accounts = registry.accounts.seq();
    let (name, record) = accounts[i];
    one_account(name, record, h);
    let one = account_findings(seq![accounts[i]], h);
    let f = one[0];
    assert(one.contains(f));
    lemma_account_findings(accounts, h, f);
    findings_come_from_their_check(registry, h, p, f);
    let all = diagnosis(registry, h, p);
    let k = choose|k: int| 0 <= k < all.len() && all[k] == f;
    assert(all[k].severity is Error);
}

/// Every finding of the registry check is an error about an account of the registry that is
/// not live as it is recorded, or about a marked account that the registry does not have.
pub proof fn registry_errors_are_true(
    registry: Registry,
    h: HostFacts,
    p: Option<&Plan>,
    k: int,
)
    requires
        0 <= k < diagnosis(registry, h, p).len(),
        diagnosis(registry, h, p)[k].check == "registry-integrity"@,
    ensures
        diagnosis(registry, h, p)[k].severity is Error,
        ({
            let name = diagnosis(registry, h, p)[k].target;
            ||| exists|i: int|
                {
                    &&& 0 <= i < registry.accounts.seq().len()
                    &&& (#[trigger] registry.accounts.seq()[i]).0 == name
                    &&& h.accounts.lookup(name) matches Some(facts) ==> !as_recorded(
                        facts,
                        registry.accounts.seq()[i].1,
                    )
                }
            ||| text::views(h.marked@).contains(name) && registry.accounts.lookup(name) is None
        }),
{
    let accounts = registry.accounts.seq();
    let f = diagnosis(registry, h, p)[k];
    findings_come_from_their_check(registry, h, p, f);
    assert(diagnosis(registry, h, p).contains(f));
    lemma_account_findings(accounts, h, f);
    if account_findings(accounts, h).contains(f) {
        let i = choose|i: int|
            0 <= i < accounts.len()
                && #[trigger] account_findings(seq![accounts[i]], h).contains(f);
        let (name, record) = accounts[i];
        one_account(name, record, h);
        assert(accounts[i].0 == name);
    } else {
        lemma_marker_findings(text::views(h.marked@), registry, f);
    }
}

/// What is found of markers is an error about a marked account that is not in the registry.
proof fn lemma_marker_findings(marked: Seq<Seq<char>>, registry: Registry, f: FindingView)
    ensures
        marker_findings(marked, registry).contains(f) ==> f.severity is Error && marked.contains(
            f.target,
        ) && registry.accounts.lookup(f.target) is None,
        forall|name: Seq<char>|
            marked.contains(name) && #[trigger] registry.accounts.lookup(name) is None ==> exists|
                k: int,
            |
                0 <= k < marker_findings(marked, registry).len() && (#[trigger] marker_findings(
                    marked,
                    registry,
                )[k]).target == name,
    decreases marked.len(),
{
    if marked.len() > 0 {
        let before = marked.drop_last();
        let last = marked.last();
        lemma_marker_findings(before, registry, f);
        markers_are_looked_up_one_by_one(before, seq![last], registry);
        one_marker(last, registry);
        assert(before + seq![last] =~= marked);
        let a = marker_findings(before, registry);
        let b = marker_findings(seq![last], registry);
        lemma_contains_both(a, b, f);
        if a.contains(f) {
            let i = choose|i: int| 0 <= i < before.len() && before[i] == f.target;
            assert(marked[i] == f.target);
        }
        if b.contains(f) {
            assert(marked[marked.len() - 1] == f.target);
        }
        assert forall|name: Seq<char>|
            marked.contains(name)
                && #[trigger] registry.accounts.lookup(name) is None implies exists|
                k: int,
            |
            0 <= k < (a + b).len() && (#[trigger] (a + b)[k]).target == name by {
            if before.contains(name) {
                let k = choose|k: int| 0 <= k < a.len() && (#[trigger] a[k]).target == name;
                assert((a + b)[k] == a[k]);
            } else {
                let i = choose|i: int| 0 <= i < marked.len() && marked[i] == name;
                if i < before.len() {
                    assert(before[i] == name);
                }
                assert((a + b)[a.len() as int] == b[0]);
            }
        }
    }
}

/// A lint is one warning of its own, in order, that names its code and message.
pub proof fn lints_become_warnings(lints: Seq<FrameworkLint>)
    ensures
        lint_findings(lints).len() == lints.len(),
        forall|i: int|
            0 <= i < lints.len() ==> (#[trigger] lint_findings(lints)[i]) == (FindingView {
                severity: Severity::Warn,
                check: "framework-integrity"@,
                target: "<framework>"@,
                message: "["@ + lints[i].code@ + "] "@ + lints[i].message@,
            }),
{
}

/// The findings stand in the order of the checks: the accounts and the markers, the groups,
/// the adopted groups, the grants, the shadow database, the accounts that can be entered,
/// the way back in, and the drift.
pub proof fn the_checks_in_order(registry: Registry, h: HostFacts, p: Option<&Plan>)
    ensures
        ({
            let shadow = match shadow_advisory(registry, h) {
                Some(f) => seq![f],
                None => seq![],
            };
            let lockout = match lockout_finding(registry, h) {
                Some(f) => seq![f],
                None => seq![],
            };
            let drift = match drift_finding(p) {
                Some(f) => seq![f],
                None => seq![],
            };
            diagnosis(registry, h, p) == account_findings(registry.accounts.seq(), h)
                + marker_findings(text::views(h.marked@), registry) + group_findings(
                registry.groups.seq(),
                h,
            ) + adopted_findings(registry.groups.seq(), h) + acl_findings(
                registry.accounts.seq(),
                h,
            ) + shadow + reach_findings(registry.accounts.seq(), h) + lockout + drift
        }),
{
}

/// The words of the system warnings, and the tags of the severities.
pub proof fn the_words_of_system_warnings(registry: Registry, h: HostFacts)
    ensures
        shadow_advisory(registry, h) matches Some(f) ==> f.message
            == "shadow database is unreadable (run as root to evaluate password-lock state); cannot confirm §8 unreachability for managed accounts"@,
        lockout_finding(registry, h) matches Some(f) ==> f.message == (if h.shadow_unreadable {
            "shadow database is unreadable (run as root to evaluate password-lock state); cannot evaluate the §7 anti-lockout rescue set"@
        } else {
            "no login-capable account outside the managed set (potential lockout if the cert path fails, §7)"@
        }),
        Severity::Error.text() == "ERROR"@,
        Severity::Warn.text() == "WARN"@,
{
}

} // verus!
