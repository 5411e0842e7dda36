//! The coverage core: a verdict on each surface object, and the counts they add up to.

use vstd::prelude::*;

use crate::catalog;
use crate::catalog::{ResolvedFileGrant, Shape};
use crate::coverage;
use crate::coverage::covered;
use crate::coverage::covered::CoveredSet;
use crate::coverage::policy;
use crate::coverage::policy::NON_GRANTABLE_PARENTS;
use crate::coverage::{
    CatalogListing, CoverageCtx, CoverageError, OsTarget, Provenance, ResolvedRole, ScanDegraded,
    SurfaceClass, SurfaceObject,
};
use crate::inspect;
use crate::text;

verus! {

broadcast use vstd::string::group_string_axioms;

// ---------------------------------------------------------------------------
// Grants on configs
// ---------------------------------------------------------------------------

/// Whether a directory-only backend can enforce the grant.
pub open spec fn enforceable(g: catalog::GrantView) -> bool {
    g.shape is Dir
}

/// The stronger of two covering grants: an enforceable one outranks a paper one, then a
/// writing one outranks a reading one, and the first seen wins a tie.
pub open spec fn stronger(
    prev: catalog::GrantView,
    cand: catalog::GrantView,
) -> catalog::GrantView {
    if enforceable(prev) != enforceable(cand) {
        if enforceable(prev) {
            prev
        } else {
            cand
        }
    } else if cand.access is Rw && prev.access is Ro {
        cand
    } else {
        prev
    }
}

/// The strongest grant that covers `path`, if any does.
pub open spec fn best_cover(grants: Seq<catalog::GrantView>, path: Seq<char>) -> Option<
    catalog::GrantView,
>
    decreases grants.len(),
{
    if grants.len() == 0 {
        None
    } else {
        let before = best_cover(grants.drop_last(), path);
        let g = grants.last();
        if !g.covers(path) {
            before
        } else {
            match before {
                None => Some(g),
                Some(prev) => Some(stronger(prev, g)),
            }
        }
    }
}

/// Whether a config counts at all: it is security-relevant, or some grant covers it.
pub open spec fn in_scope(path: Seq<char>, grants: Seq<catalog::GrantView>) -> bool {
    policy::security_relevant(path) || best_cover(grants, path) is Some
}

/// Whether a config sits directly in a directory too broad to grant.
pub open spec fn in_broad_parent(path: Seq<char>) -> bool {
    text::listed(text::str_views(NON_GRANTABLE_PARENTS@), catalog::parent_of(path))
}

/// The word for a grant's shape.
pub open spec fn shape_text(shape: Shape) -> Seq<char> {
    match shape {
        Shape::Dir => "directory"@,
        Shape::File => "File"@,
        Shape::Pattern => "Pattern"@,
    }
}

/// The backend that enforces a grant of this shape.
pub open spec fn backend_text(shape: Shape) -> Seq<char> {
    match shape {
        Shape::Dir => "AclBackend"@,
        Shape::File => "per-file-capable backend"@,
        Shape::Pattern => "pattern-capable backend"@,
    }
}

/// How a grant covers what it covers.
pub open spec fn note_text(g: catalog::GrantView) -> Seq<char> {
    match g.shape {
        Shape::Dir => g.access.text() + " via AclBackend (dir)"@,
        Shape::File => g.access.text() + " (requires per-file-capable backend)"@,
        Shape::Pattern => g.access.text() + " (requires pattern-capable backend)"@,
    }
}

// ---------------------------------------------------------------------------
// Exclusions and suggestions
// ---------------------------------------------------------------------------

/// The escalation substrate itself.
pub const ESCALATION_BINARIES: [&'static str; 5] = ["su", "sudo", "pkexec", "newgrp", "sg"];

/// Groups that are admin by design.
pub const ADMIN_GROUPS: [&'static str; 4] = ["astra-admin", "astra-console", "sudo", "wheel"];

/// Groups that gate no grantable surface.
pub const NOISE_GROUPS: [&'static str; 3] = ["messagebus", "crontab", "ssl-cert"];

/// Why an object is intentionally not covered, if it is.
pub open spec fn exclusion(o: coverage::ObjectView) -> Option<Seq<char>> {
    if o.class is SudoBin || o.class is Setuid {
        let name = catalog::base_of(o.key);
        if text::listed(text::str_views(ESCALATION_BINARIES@), name) {
            Some("escalation mechanism (not an object of grant)"@)
        } else if text::starts_with(name, "pdpl"@) || text::starts_with(name, "parsec"@) {
            Some("MAC/pdpl — commercial ParsecBackend layer"@)
        } else {
            None
        }
    } else if o.class is Group {
        if text::listed(text::str_views(ADMIN_GROUPS@), o.key) || text::starts_with(
            o.key,
            "bfs_"@,
        ) || text::starts_with(o.key, "ndc_"@) {
            Some("admin-by-design / app site-layer group"@)
        } else if text::listed(text::str_views(NOISE_GROUPS@), o.key) {
            Some("noise group (not gate-keeping to a grant)"@)
        } else {
            None
        }
    } else {
        None
    }
}

/// The permission that would cover a binary of this name.
pub open spec fn binary_suggestion(name: Seq<char>) -> Option<Seq<char>> {
    if name == "cryptsetup"@ {
        Some("luks-admin"@)
    } else if name == "setcap"@ || name == "getcap"@ {
        Some("capability-admin"@)
    } else if name == "aa-enforce"@ || name == "aa-complain"@ || name == "apparmor_parser"@
        || name == "aa-status"@ {
        Some("apparmor-admin"@)
    } else if name == "update-ca-certificates"@ {
        Some("ca-trust-admin"@)
    } else if name == "auditctl"@ || name == "augenrules"@ {
        Some("audit-config"@)
    } else if name == "useradd"@ || name == "usermod"@ || name == "userdel"@ || name
        == "chpasswd"@ {
        Some("user-admin"@)
    } else if name == "modprobe"@ || name == "rmmod"@ {
        Some("driver-config"@)
    } else if name == "sysctl"@ {
        Some("kernel-tune"@)
    } else if name == "parted"@ || name == "fdisk"@ || name == "lvm"@ {
        Some("disk-admin"@)
    } else if name == "reboot"@ || name == "shutdown"@ || name == "poweroff"@ || name
        == "halt"@ {
        Some("power-control"@)
    } else if name == "iptables"@ || name == "iptables-restore"@ || name == "nft"@ {
        Some("firewall-admin"@)
    } else {
        None
    }
}

/// The permission that would cover a group of this name.
pub open spec fn group_suggestion(name: Seq<char>) -> Option<Seq<char>> {
    if name == "netdev"@ {
        Some("network-admin"@)
    } else if name == "dialout"@ {
        Some("device-serial"@)
    } else if name == "plugdev"@ {
        Some("device-usb"@)
    } else if name == "disk"@ {
        Some("disk-admin"@)
    } else if name == "adm"@ || name == "systemd-journal"@ {
        Some("log-read"@)
    } else if name == "docker"@ {
        Some("docker.admin"@)
    } else if name == "lpadmin"@ {
        Some("print-admin"@)
    } else {
        None
    }
}

/// The permission that would cover an object, going by what it is for.
pub open spec fn domain_suggestion(o: coverage::ObjectView) -> Option<Seq<char>> {
    match o.class {
        SurfaceClass::SudoBin => binary_suggestion(catalog::base_of(o.key)),
        SurfaceClass::Group => group_suggestion(o.key),
        SurfaceClass::CapFile => Some("capability-admin"@),
        _ => None,
    }
}

/// The suggestion for an uncovered object. For a config it is a grant on its directory.
pub open spec fn suggestion(o: coverage::ObjectView) -> Option<Seq<char>> {
    if o.class is Config {
        Some("file grant rw on "@ + catalog::parent_of(o.key) + " (recursive)"@)
    } else {
        domain_suggestion(o)
    }
}

// ---------------------------------------------------------------------------
// Verdicts
// ---------------------------------------------------------------------------

/// Whether a unit is named in the set, in either form.
pub open spec fn unit_named(units: Set<Seq<char>>, unit: Seq<char>) -> bool {
    let base = covered::unit_base(unit);
    units.contains(unit) || units.contains(base) || units.contains(base + ".service"@)
}

/// Whether an object other than a config is covered.
pub open spec fn object_is_covered(o: coverage::ObjectView, c: covered::CoveredView) -> bool {
    match o.class {
        SurfaceClass::SudoBin => c.sudo_binaries.contains(o.key),
        SurfaceClass::Group => c.groups.contains(o.key),
        SurfaceClass::Unit => c.service_admin || unit_named(c.units, o.key),
        SurfaceClass::CapFile => c.capability_admin,
        SurfaceClass::Config => false,
        SurfaceClass::Setuid => false,
    }
}

/// Per-object coverage verdict in the report.
#[derive(Debug, Clone, PartialEq, Eq)]
pub struct ObjectCoverage {
    /// The surface object this verdict is about.
    pub object: SurfaceObject,
    /// Whether the object is covered by the catalog.
    pub covered: bool,
    /// A best-effort suggested permission for an uncovered object.
    pub suggested_permission: Option<String>,
    /// When set, the object is intentionally uncovered for this reason and does not
    /// penalise the metric.
    pub intentional_exclusion: Option<String>,
    /// When set, no installed backend can cover the object without an over-broad grant,
    /// and it does not penalise the metric.
    pub backend_limited: Option<String>,
    /// For a covered config, the access and the backend that enforces it.
    pub coverage_note: Option<String>,
}

/// The contents of an [`ObjectCoverage`].
#[verifier::ext_equal]
pub struct VerdictView {
    /// The object.
    pub object: coverage::ObjectView,
    /// Whether it is covered.
    pub covered: bool,
    /// The suggestion.
    pub suggested_permission: Option<Seq<char>>,
    /// The reason of an intentional exclusion.
    pub intentional_exclusion: Option<Seq<char>>,
    /// The reason of a backend limit.
    pub backend_limited: Option<Seq<char>>,
    /// The note.
    pub coverage_note: Option<Seq<char>>,
}

impl View for ObjectCoverage {
    type V = VerdictView;

    open spec fn view(&self) -> VerdictView {
        VerdictView {
            object: self.object@,
            covered: self.covered,
            suggested_permission: inspect::opt_text(self.suggested_permission),
            intentional_exclusion: inspect::opt_text(self.intentional_exclusion),
            backend_limited: inspect::opt_text(self.backend_limited),
            coverage_note: inspect::opt_text(self.coverage_note),
        }
    }
}

/// The contents of a list of verdicts.
pub open spec fn verdict_views(v: Seq<ObjectCoverage>) -> Seq<VerdictView> {
    v.map_values(|o: ObjectCoverage| o@)
}

impl VerdictView {
    /// Whether the object counts toward the metric.
    pub open spec fn counts(self) -> bool {
        self.intentional_exclusion is None && self.backend_limited is None
    }
}

/// The verdict that an object is covered.
pub open spec fn is_covered(o: coverage::ObjectView, note: Option<Seq<char>>) -> VerdictView {
    VerdictView {
        object: o,
        covered: true,
        suggested_permission: None,
        intentional_exclusion: None,
        backend_limited: None,
        coverage_note: note,
    }
}

/// The verdict that an object is a gap.
pub open spec fn is_gap(o: coverage::ObjectView) -> VerdictView {
    VerdictView {
        object: o,
        covered: false,
        suggested_permission: suggestion(o),
        intentional_exclusion: None,
        backend_limited: None,
        coverage_note: None,
    }
}

/// The verdict that an object is left out on purpose.
pub open spec fn is_excluded(o: coverage::ObjectView, reason: Seq<char>) -> VerdictView {
    VerdictView {
        object: o,
        covered: false,
        suggested_permission: None,
        intentional_exclusion: Some(reason),
        backend_limited: None,
        coverage_note: None,
    }
}

/// The verdict that no installed backend can cover an object.
pub open spec fn is_limited(o: coverage::ObjectView, reason: Seq<char>) -> VerdictView {
    VerdictView {
        object: o,
        covered: false,
        suggested_permission: None,
        intentional_exclusion: None,
        backend_limited: Some(reason),
        coverage_note: None,
    }
}

/// The verdict on a config. A grant that no directory-only backend can enforce does not
/// cover it, and neither is an ungranted file directly in a broad directory a gap.
pub open spec fn config_verdict(
    o: coverage::ObjectView,
    grants: Seq<catalog::GrantView>,
) -> VerdictView {
    match best_cover(grants, o.key) {
        Some(g) => if enforceable(g) {
            is_covered(o, Some(note_text(g)))
        } else {
            is_limited(
                o,
                "declared "@ + shape_text(g.shape) + " grant; requires "@ + backend_text(g.shape),
            )
        },
        None => if in_broad_parent(o.key) {
            is_limited(
                o,
                "single file in non-grantable parent; requires per-file-capable backend"@,
            )
        } else {
            is_gap(o)
        },
    }
}

/// The verdict on an object, where it gets one: a setuid object does not, and neither
/// does a config out of scope, unless low-priority ones are asked for.
pub open spec fn verdict(
    o: coverage::ObjectView,
    c: covered::CoveredView,
    include_low_priority: bool,
) -> Option<VerdictView> {
    if o.class is Setuid {
        None
    } else if o.class is Config && !include_low_priority && !in_scope(o.key, c.file_grants) {
        None
    } else {
        match exclusion(o) {
            Some(reason) => Some(is_excluded(o, reason)),
            None => Some(
                if o.class is Config {
                    config_verdict(o, c.file_grants)
                } else if object_is_covered(o, c) {
                    is_covered(o, None)
                } else {
                    is_gap(o)
                },
            ),
        }
    }
}

/// The verdicts on the objects, in order.
pub open spec fn verdicts(
    surface: Seq<coverage::ObjectView>,
    c: covered::CoveredView,
    include_low_priority: bool,
) -> Seq<VerdictView>
    decreases surface.len(),
{
    if surface.len() == 0 {
        seq![]
    } else {
        let before = verdicts(surface.drop_last(), c, include_low_priority);
        match verdict(surface.last(), c, include_low_priority) {
            Some(v) => before.push(v),
            None => before,
        }
    }
}

/// The setuid objects, in order.
pub open spec fn setuids(surface: Seq<coverage::ObjectView>) -> Seq<coverage::ObjectView>
    decreases surface.len(),
{
    if surface.len() == 0 {
        seq![]
    } else {
        let before = setuids(surface.drop_last());
        if surface.last().class is Setuid {
            before.push(surface.last())
        } else {
            before
        }
    }
}

/// Whether an object is an anomaly: a setuid or capability-bearing file of no package.
pub open spec fn anomalous(o: coverage::ObjectView) -> bool {
    (o.class is Setuid || o.class is CapFile) && o.provenance is Orphan
}

/// The anomalies, in order.
pub open spec fn anomalies_of(surface: Seq<coverage::ObjectView>) -> Seq<coverage::ObjectView>
    decreases surface.len(),
{
    if surface.len() == 0 {
        seq![]
    } else {
        let before = anomalies_of(surface.drop_last());
        if anomalous(surface.last()) {
            before.push(surface.last())
        } else {
            before
        }
    }
}

// ---------------------------------------------------------------------------
// Counts
// ---------------------------------------------------------------------------

/// Coverage counts for a single grant class.
#[derive(Debug, Clone, Copy, PartialEq, Eq, Structural)]
pub struct ClassCoverage {
    /// The class these counts are for.
    pub class: SurfaceClass,
    /// Objects covered by the catalog.
    pub covered: usize,
    /// Objects counted toward the metric: covered ones and honest gaps.
    pub total: usize,
}

/// The contents of a [`ClassCoverage`].
#[verifier::ext_equal]
pub struct TallyView {
    /// The class.
    pub class: SurfaceClass,
    /// How many are covered.
    pub covered: nat,
    /// How many are counted.
    pub total: nat,
}

impl View for ClassCoverage {
    type V = TallyView;

    open spec fn view(&self) -> TallyView {
        TallyView { class: self.class, covered: self.covered as nat, total: self.total as nat }
    }
}

/// The contents of a list of counts.
pub open spec fn tally_views(v: Seq<ClassCoverage>) -> Seq<TallyView> {
    v.map_values(|c: ClassCoverage| c@)
}

/// The part of a whole that is covered, as numerator and denominator. Nothing to cover
/// is fully covered.
pub open spec fn covered_part(covered: nat, total: nat) -> (nat, nat) {
    if total == 0 {
        (1, 1)
    } else {
        (covered, total)
    }
}

impl ClassCoverage {
    /// The part of this class that is covered, as numerator and denominator. A class
    /// with nothing to cover is fully covered, so the denominator is never zero.
    pub fn fraction(&self) -> (r: (usize, usize))
        ensures
            (r.0 as nat, r.1 as nat) == covered_part(self@.covered, self@.total),
    {
        if self.total == 0 {
            (1, 1)
        } else {
            (self.covered, self.total)
        }
    }
}

/// How many verdicts on objects of the class count.
pub open spec fn total_of(vs: Seq<VerdictView>, class: SurfaceClass) -> nat
    decreases vs.len(),
{
    if vs.len() == 0 {
        0
    } else {
        let v = vs.last();
        total_of(vs.drop_last(), class) + if v.counts() && v.object.class == class {
            1nat
        } else {
            0
        }
    }
}

/// How many verdicts on objects of the class count and are that it is covered.
pub open spec fn covered_of(vs: Seq<VerdictView>, class: SurfaceClass) -> nat
    decreases vs.len(),
{
    if vs.len() == 0 {
        0
    } else {
        let v = vs.last();
        covered_of(vs.drop_last(), class) + if v.counts() && v.covered && v.object.class
            == class {
            1nat
        } else {
            0
        }
    }
}

/// The counts of a class.
pub open spec fn tally(vs: Seq<VerdictView>, class: SurfaceClass) -> TallyView {
    TallyView { class, covered: covered_of(vs, class), total: total_of(vs, class) }
}

/// The counts of the grant classes.
pub open spec fn tallies(vs: Seq<VerdictView>) -> Seq<TallyView> {
    seq![
        tally(vs, SurfaceClass::SudoBin),
        tally(vs, SurfaceClass::Config),
        tally(vs, SurfaceClass::Unit),
        tally(vs, SurfaceClass::Group),
        tally(vs, SurfaceClass::CapFile),
    ]
}

/// How many objects are covered, over all classes.
pub open spec fn covered_sum(ts: Seq<TallyView>) -> nat
    decreases ts.len(),
{
    if ts.len() == 0 {
        0
    } else {
        covered_sum(ts.drop_last()) + ts.last().covered
    }
}

/// How many objects are counted, over all classes.
pub open spec fn total_sum(ts: Seq<TallyView>) -> nat
    decreases ts.len(),
{
    if ts.len() == 0 {
        0
    } else {
        total_sum(ts.drop_last()) + ts.last().total
    }
}

/// The full coverage report.
#[derive(Debug, Clone, PartialEq, Eq)]
pub struct CoverageReport {
    /// Per-class counts (grant classes only).
    pub by_class: Vec<ClassCoverage>,
    /// Per-object verdicts, in input order.
    pub objects: Vec<ObjectCoverage>,
    /// Every setuid object.
    pub setuid_inventory: Vec<SurfaceObject>,
    /// Anomalies to investigate (orphan setuid or capability-bearing files).
    pub anomalies: Vec<SurfaceObject>,
    /// Objects covered, over all grant classes. Each object weighs the same.
    pub overall_covered: usize,
    /// Objects counted, over all grant classes.
    pub overall_total: usize,
    /// The catalog version coverage was computed against, if known.
    pub catalog_version: Option<String>,
    /// The OS target coverage was computed for.
    pub os_target: String,
    /// The permissions that did not resolve and were skipped.
    pub catalog_warnings: Vec<String>,
    /// Per-class scan degradations. The core leaves this empty; whoever ran the scan
    /// fills it in.
    pub scan_warnings: Vec<ScanDegraded>,
}

/// The contents of a [`CoverageReport`].
#[verifier::ext_equal]
pub struct ReportView {
    /// The counts of the grant classes.
    pub by_class: Seq<TallyView>,
    /// The verdicts.
    pub objects: Seq<VerdictView>,
    /// The setuid objects.
    pub setuid_inventory: Seq<coverage::ObjectView>,
    /// The anomalies.
    pub anomalies: Seq<coverage::ObjectView>,
    /// How many are covered.
    pub overall_covered: nat,
    /// How many are counted.
    pub overall_total: nat,
    /// The catalog version.
    pub catalog_version: Option<Seq<char>>,
    /// The OS target.
    pub os_target: Seq<char>,
    /// The catalog warnings.
    pub catalog_warnings: Seq<Seq<char>>,
    /// The scan warnings.
    pub scan_warnings: Seq<coverage::DegradedView>,
}

impl View for CoverageReport {
    type V = ReportView;

    open spec fn view(&self) -> ReportView {
        ReportView {
            by_class: tally_views(self.by_class@),
            objects: verdict_views(self.objects@),
            setuid_inventory: coverage::object_views(self.setuid_inventory@),
            anomalies: coverage::object_views(self.anomalies@),
            overall_covered: self.overall_covered as nat,
            overall_total: self.overall_total as nat,
            catalog_version: inspect::opt_text(self.catalog_version),
            os_target: self.os_target@,
            catalog_warnings: text::views(self.catalog_warnings@),
            scan_warnings: coverage::degraded_views(self.scan_warnings@),
        }
    }
}

impl CoverageReport {
    /// The part of the whole surface that is covered, as numerator and denominator. A
    /// surface with nothing to cover is fully covered.
    pub fn overall(&self) -> (r: (usize, usize))
        ensures
            (r.0 as nat, r.1 as nat) == covered_part(self@.overall_covered, self@.overall_total),
    {
        if self.overall_total == 0 {
            (1, 1)
        } else {
            (self.overall_covered, self.overall_total)
        }
    }
}

/// The most specific layer of an operating system.
pub open spec fn last_layer(layers: Seq<Seq<char>>) -> Seq<char> {
    if layers.len() == 0 {
        ""@
    } else {
        layers.last()
    }
}

/// The report on a surface.
pub open spec fn report_of(
    surface: Seq<coverage::ObjectView>,
    entries: Seq<coverage::EntryView>,
    os: OsTarget,
    roles: Seq<coverage::ExpansionView>,
    ctx: CoverageCtx,
    include_low_priority: bool,
) -> ReportView {
    let c = covered::covered_by(entries, roles, ctx.strict, text::views(ctx.bound_grant_groups@));
    let vs = verdicts(surface, c, include_low_priority);
    ReportView {
        by_class: tallies(vs),
        objects: vs,
        setuid_inventory: setuids(surface),
        anomalies: anomalies_of(surface),
        overall_covered: covered_sum(tallies(vs)),
        overall_total: total_sum(tallies(vs)),
        catalog_version: inspect::opt_text(ctx.catalog_version),
        os_target: last_layer(text::views(os.layers@)),
        catalog_warnings: covered::unresolved(entries),
        scan_warnings: seq![],
    }
}

// ---------------------------------------------------------------------------
// Deciding
// ---------------------------------------------------------------------------

/// The strongest file grant covering a config `path`.
pub fn config_grant_cover<'a>(path: &str, grants: &'a [ResolvedFileGrant]) -> (r: Option<
    &'a ResolvedFileGrant,
>)
    ensures
        match r {
            Some(g) => best_cover(catalog::grant_views(grants@), path@) == Some(g@),
            None => best_cover(catalog::grant_views(grants@), path@) is None,
        },
{
    let ghost all = catalog::grant_views(grants@);
    let mut best: Option<&'a ResolvedFileGrant> = None;
    let mut i: usize = 0;
    while i < grants.len()
        invariant
            all == catalog::grant_views(grants@),
            i <= grants@.len(),
            match best {
                Some(g) => best_cover(all.take(i as int), path@) == Some(g@),
                None => best_cover(all.take(i as int), path@) is None,
            },
        decreases grants@.len() - i,
    {
        let g = &grants[i];
        proof {
            assert(all.take(i + 1).drop_last() =~= all.take(i as int));
            assert(all.take(i + 1).last() == g@);
        }
        if grant_covers_path(g, path) {
            best =
            Some(
                match best {
                    None => g,
                    Some(prev) => choose_stronger_cover(prev, g),
                },
            );
        }
        i += 1;
    }
    proof {
        assert(all.take(i as int) =~= all);
    }
    best
}

/// Whether one grant covers `path`: exactly, or below it on a component boundary where
/// the grant is recursive.
pub fn grant_covers_path(grant: &ResolvedFileGrant, path: &str) -> (r: bool)
    ensures
        r == grant@.covers(path@),
{
    text::same(&grant.path, path) || (grant.recursive && catalog::path_at_or_under(
        &grant.path,
        path,
    ))
}

/// The stronger of two covering grants.
pub fn choose_stronger_cover<'a>(
    prev: &'a ResolvedFileGrant,
    cand: &'a ResolvedFileGrant,
) -> (r: &'a ResolvedFileGrant)
    ensures
        r@ == stronger(prev@, cand@),
{
    let first = grant_shape_enforceable(prev);
    if first != grant_shape_enforceable(cand) {
        return if first {
            prev
        } else {
            cand
        };
    }
    if cand.access.writes() && !prev.access.writes() {
        cand
    } else {
        prev
    }
}

/// Whether a directory-only backend can enforce the grant.
pub fn grant_shape_enforceable(grant: &ResolvedFileGrant) -> (r: bool)
    ensures
        r == enforceable(grant@),
{
    match grant.shape {
        Shape::Dir => true,
        _ => false,
    }
}

/// The word for a grant's shape.
pub fn shape_word(shape: Shape) -> (r: &'static str)
    ensures
        r@ == shape_text(shape),
{
    match shape {
        Shape::Dir => "directory",
        Shape::File => "File",
        Shape::Pattern => "Pattern",
    }
}

/// The backend that enforces a file grant.
pub fn grant_backend(grant: &ResolvedFileGrant) -> (r: &'static str)
    ensures
        r@ == backend_text(grant@.shape),
{
    match grant.shape {
        Shape::Dir => "AclBackend",
        Shape::File => "per-file-capable backend",
        Shape::Pattern => "pattern-capable backend",
    }
}

/// The note on how a grant covers.
pub fn grant_coverage_note(grant: &ResolvedFileGrant) -> (r: String)
    ensures
        r@ == note_text(grant@),
{
    let access = grant.access.as_str();
    match grant.shape {
        Shape::Dir => text::join2(access, " via AclBackend (dir)"),
        Shape::File => text::join2(access, " (requires per-file-capable backend)"),
        Shape::Pattern => text::join2(access, " (requires pattern-capable backend)"),
    }
}

/// Whether a config counts at all.
pub fn config_in_scope(path: &str, grants: &[ResolvedFileGrant]) -> (r: bool)
    ensures
        r == in_scope(path@, catalog::grant_views(grants@)),
{
    policy::is_security_relevant_config(path) || config_grant_cover(path, grants).is_some()
}

/// Whether a config sits directly in a directory too broad to grant.
pub fn backend_limited_config(path: &str) -> (r: bool)
    ensures
        r == in_broad_parent(path@),
{
    text::in_words(&NON_GRANTABLE_PARENTS, &catalog::parent_dir(path))
}

/// Whether a unit is named in the set, in either form.
fn unit_covered(unit: &str, units: &vstd::hash_set::StringHashSet) -> (r: bool)
    ensures
        r == unit_named(units@, unit@),
{
    let base = covered::unit_stem(unit);
    let long = text::join2(&base, ".service");
    units.contains(unit) || units.contains(&base) || units.contains(&long)
}

/// Whether an object other than a config is covered.
pub fn object_covered(object: &SurfaceObject, set: &CoveredSet) -> (r: bool)
    ensures
        r == object_is_covered(object@, set@),
{
    match object.class {
        SurfaceClass::SudoBin => set.sudo_binaries.contains(&object.key),
        SurfaceClass::Group => set.groups.contains(&object.key),
        SurfaceClass::Unit => set.has_service_admin || unit_covered(&object.key, &set.units),
        SurfaceClass::CapFile => set.has_capability_admin,
        SurfaceClass::Config => false,
        SurfaceClass::Setuid => false,
    }
}

/// Why an object is intentionally not covered, if it is.
pub fn intentional_exclusion(object: &SurfaceObject) -> (r: Option<String>)
    ensures
        inspect::opt_text(r) == exclusion(object@),
{
    match object.class {
        SurfaceClass::SudoBin | SurfaceClass::Setuid => {
            let name = catalog::basename(&object.key);
            if text::in_words(&ESCALATION_BINARIES, &name) {
                return Some("escalation mechanism (not an object of grant)".to_owned());
            }
            let cs = text::chars_of(&name);
            if text::has_prefix(cs.as_slice(), "pdpl") || text::has_prefix(
                cs.as_slice(),
                "parsec",
            ) {
                return Some("MAC/pdpl — commercial ParsecBackend layer".to_owned());
            }
            None
        },
        SurfaceClass::Group => {
            let cs = text::chars_of(&object.key);
            if text::in_words(&ADMIN_GROUPS, &object.key) || text::has_prefix(
                cs.as_slice(),
                "bfs_",
            ) || text::has_prefix(cs.as_slice(), "ndc_") {
                return Some("admin-by-design / app site-layer group".to_owned());
            }
            if text::in_words(&NOISE_GROUPS, &object.key) {
                return Some("noise group (not gate-keeping to a grant)".to_owned());
            }
            None
        },
        _ => None,
    }
}

/// The permission that would cover a binary of this name.
fn suggest_for_binary(name: &str) -> (r: Option<&'static str>)
    ensures
        inspect::opt_str(r) == binary_suggestion(name@),
{
    if text::same(name, "cryptsetup") {
        Some("luks-admin")
    } else if text::same(name, "setcap") || text::same(name, "getcap") {
        Some("capability-admin")
    } else if text::same(name, "aa-enforce") || text::same(name, "aa-complain") || text::same(
        name,
        "apparmor_parser",
    ) || text::same(name, "aa-status") {
        Some("apparmor-admin")
    } else if text::same(name, "update-ca-certificates") {
        Some("ca-trust-admin")
    } else if text::same(name, "auditctl") || text::same(name, "augenrules") {
        Some("audit-config")
    } else if text::same(name, "useradd") || text::same(name, "usermod") || text::same(
        name,
        "userdel",
    ) || text::same(name, "chpasswd") {
        Some("user-admin")
    } else if text::same(name, "modprobe") || text::same(name, "rmmod") {
        Some("driver-config")
    } else if text::same(name, "sysctl") {
        Some("kernel-tune")
    } else if text::same(name, "parted") || text::same(name, "fdisk") || text::same(name, "lvm") {
        Some("disk-admin")
    } else if text::same(name, "reboot") || text::same(name, "shutdown") || text::same(
        name,
        "poweroff",
    ) || text::same(name, "halt") {
        Some("power-control")
    } else if text::same(name, "iptables") || text::same(name, "iptables-restore") || text::same(
        name,
        "nft",
    ) {
        Some("firewall-admin")
    } else {
        None
    }
}

/// The permission that would cover a group of this name.
fn suggest_for_group(name: &str) -> (r: Option<&'static str>)
    ensures
        inspect::opt_str(r) == group_suggestion(name@),
{
    if text::same(name, "netdev") {
        Some("network-admin")
    } else if text::same(name, "dialout") {
        Some("device-serial")
    } else if text::same(name, "plugdev") {
        Some("device-usb")
    } else if text::same(name, "disk") {
        Some("disk-admin")
    } else if text::same(name, "adm") || text::same(name, "systemd-journal") {
        Some("log-read")
    } else if text::same(name, "docker") {
        Some("docker.admin")
    } else if text::same(name, "lpadmin") {
        Some("print-admin")
    } else {
        None
    }
}

/// Best-effort suggested permission for an uncovered object, by domain.
pub fn suggest_permission(object: &SurfaceObject) -> (r: Option<String>)
    ensures
        inspect::opt_text(r) == domain_suggestion(object@),
{
    let id = match object.class {
        SurfaceClass::SudoBin => suggest_for_binary(&catalog::basename(&object.key)),
        SurfaceClass::Group => suggest_for_group(&object.key),
        SurfaceClass::CapFile => Some("capability-admin"),
        _ => None,
    };
    match id {
        Some(id) => Some(id.to_owned()),
        None => None,
    }
}

/// Suggestion for an uncovered object: for a config, a grant on its directory, which a
/// directory-only backend can enforce.
pub fn suggest_permission_with_grants(object: &SurfaceObject) -> (r: Option<String>)
    ensures
        inspect::opt_text(r) == suggestion(object@),
{
    match object.class {
        SurfaceClass::Config => Some(
            text::join3("file grant rw on ", &catalog::parent_dir(&object.key), " (recursive)"),
        ),
        _ => suggest_permission(object),
    }
}

/// The verdict on a config.
fn judge_config(object: &SurfaceObject, grants: &[ResolvedFileGrant]) -> (r: ObjectCoverage)
    requires
        object.class is Config,
    ensures
        r@ == config_verdict(object@, catalog::grant_views(grants@)),
{
    match config_grant_cover(&object.key, grants) {
        Some(grant) => {
            if grant_shape_enforceable(grant) {
                ObjectCoverage {
                    object: object.clone(),
                    covered: true,
                    suggested_permission: None,
                    intentional_exclusion: None,
                    backend_limited: None,
                    coverage_note: Some(grant_coverage_note(grant)),
                }
            } else {
                let mut reason = text::join3(
                    "declared ",
                    shape_word(grant.shape),
                    " grant; requires ",
                );
                reason.append(grant_backend(grant));
                ObjectCoverage {
                    object: object.clone(),
                    covered: false,
                    suggested_permission: None,
                    intentional_exclusion: None,
                    backend_limited: Some(reason),
                    coverage_note: None,
                }
            }
        },
        None => {
            if backend_limited_config(&object.key) {
                ObjectCoverage {
                    object: object.clone(),
                    covered: false,
                    suggested_permission: None,
                    intentional_exclusion: None,
                    backend_limited: Some(
                        "single file in non-grantable parent; requires per-file-capable backend".to_owned(),
                    ),
                    coverage_note: None,
                }
            } else {
                ObjectCoverage {
                    object: object.clone(),
                    covered: false,
                    suggested_permission: suggest_permission_with_grants(object),
                    intentional_exclusion: None,
                    backend_limited: None,
                    coverage_note: None,
                }
            }
        },
    }
}

/// The verdict on an object, where it gets one.
pub fn judge(object: &SurfaceObject, set: &CoveredSet, include_low_priority: bool) -> (r: Option<
    ObjectCoverage,
>)
    ensures
        match r {
            Some(v) => verdict(object@, set@, include_low_priority) == Some(v@),
            None => verdict(object@, set@, include_low_priority) is None,
        },
{
    match object.class {
        SurfaceClass::Setuid => {
            return None;
        },
        SurfaceClass::Config => {
            if !include_low_priority && !config_in_scope(
                &object.key,
                set.file_grants.as_slice(),
            ) {
                return None;
            }
        },
        _ => {},
    }
    match intentional_exclusion(object) {
        Some(reason) => {
            return Some(
                ObjectCoverage {
                    object: object.clone(),
                    covered: false,
                    suggested_permission: None,
                    intentional_exclusion: Some(reason),
                    backend_limited: None,
                    coverage_note: None,
                },
            );
        },
        None => {},
    }
    match object.class {
        SurfaceClass::Config => {
            return Some(judge_config(object, set.file_grants.as_slice()));
        },
        _ => {},
    }
    let covered = object_covered(object, set);
    let suggested_permission = if covered {
        None
    } else {
        suggest_permission_with_grants(object)
    };
    Some(
        ObjectCoverage {
            object: object.clone(),
            covered,
            suggested_permission,
            intentional_exclusion: None,
            backend_limited: None,
            coverage_note: None,
        },
    )
}

/// Whether an object is an anomaly.
fn is_anomaly(object: &SurfaceObject) -> (r: bool)
    ensures
        r == anomalous(object@),
{
    match object.class {
        SurfaceClass::Setuid | SurfaceClass::CapFile => match object.provenance {
            Provenance::Orphan => true,
            _ => false,
        },
        _ => false,
    }
}

/// No more verdicts count, or are that it is covered, than there are; and none is
/// covered that does not count.
proof fn lemma_count_bounds(vs: Seq<VerdictView>, class: SurfaceClass)
    ensures
        covered_of(vs, class) <= total_of(vs, class) <= vs.len(),
    decreases vs.len(),
{
    if vs.len() > 0 {
        lemma_count_bounds(vs.drop_last(), class);
    }
}

/// Each verdict counts for one class at most.
proof fn lemma_total_bound(vs: Seq<VerdictView>)
    ensures
        total_of(vs, SurfaceClass::SudoBin) + total_of(vs, SurfaceClass::Config) + total_of(
            vs,
            SurfaceClass::Unit,
        ) + total_of(vs, SurfaceClass::Group) + total_of(vs, SurfaceClass::CapFile) <= vs.len(),
    decreases vs.len(),
{
    if vs.len() > 0 {
        lemma_total_bound(vs.drop_last());
    }
}

/// Count the verdicts on one class.
fn count_class(verdicts: &[ObjectCoverage], class: SurfaceClass) -> (r: ClassCoverage)
    ensures
        r@ == tally(verdict_views(verdicts@), class),
{
    let ghost all = verdict_views(verdicts@);
    let mut covered: usize = 0;
    let mut total: usize = 0;
    let mut i: usize = 0;
    while i < verdicts.len()
        invariant
            all == verdict_views(verdicts@),
            i <= verdicts@.len(),
            covered == covered_of(all.take(i as int), class),
            total == total_of(all.take(i as int), class),
            covered <= i,
            total <= i,
        decreases verdicts@.len() - i,
    {
        let v = &verdicts[i];
        proof {
            assert(all.take(i + 1).drop_last() =~= all.take(i as int));
            assert(all.take(i + 1).last() == v@);
        }
        if v.intentional_exclusion.is_none() && v.backend_limited.is_none() && v.object.class
            == class {
            total += 1;
            if v.covered {
                covered += 1;
            }
        }
        i += 1;
    }
    proof {
        assert(all.take(i as int) =~= all);
    }
    ClassCoverage { class, covered, total }
}

/// Compute coverage of `surface` against the installed catalog and the roles, without
/// the low-priority configs.
pub fn coverage(
    surface: &[SurfaceObject],
    catalog: &CatalogListing,
    os: &OsTarget,
    roles: &[ResolvedRole],
    ctx: &CoverageCtx,
) -> (r: Result<CoverageReport, CoverageError>)
    ensures
        match *catalog {
            CatalogListing::Entries(entries) => r is Ok && r->Ok_0@ == report_of(
                coverage::object_views(surface@),
                coverage::entry_views(entries@),
                *os,
                coverage::role_views(roles@),
                *ctx,
                false,
            ),
            CatalogListing::Unreadable(e) => r is Err && r->Err_0@
                == coverage::CoverageErrorView::Catalog(e@),
        },
{
    coverage_scoped(surface, catalog, os, roles, ctx, false)
}

/// Coverage with explicit `include_low_priority`: when set, configs that are neither
/// security-relevant nor named by a grant are counted too.
pub fn coverage_scoped(
    surface: &[SurfaceObject],
    catalog: &CatalogListing,
    os: &OsTarget,
    roles: &[ResolvedRole],
    ctx: &CoverageCtx,
    include_low_priority: bool,
) -> (r: Result<CoverageReport, CoverageError>)
    ensures
        match *catalog {
            CatalogListing::Entries(entries) => r is Ok && r->Ok_0@ == report_of(
                coverage::object_views(surface@),
                coverage::entry_views(entries@),
                *os,
                coverage::role_views(roles@),
                *ctx,
                include_low_priority,
            ),
            CatalogListing::Unreadable(e) => r is Err && r->Err_0@
                == coverage::CoverageErrorView::Catalog(e@),
        },
{
    let entries = match catalog {
        CatalogListing::Unreadable(e) => {
            return Err(CoverageError::Catalog(e.clone()));
        },
        CatalogListing::Entries(entries) => entries,
    };
    let (set, catalog_warnings) = covered::build_covered_set(
        entries.as_slice(),
        roles,
        ctx.strict,
        ctx.bound_grant_groups.as_slice(),
    );
    let ghost all = coverage::object_views(surface@);
    let ghost c = set@;
    let mut objects: Vec<ObjectCoverage> = Vec::new();
    let mut setuid_inventory: Vec<SurfaceObject> = Vec::new();
    let mut anomalies: Vec<SurfaceObject> = Vec::new();
    let mut i: usize = 0;
    proof {
        assert(verdict_views(objects@) =~= verdicts(all.take(0), c, include_low_priority));
        assert(coverage::object_views(setuid_inventory@) =~= setuids(all.take(0)));
        assert(coverage::object_views(anomalies@) =~= anomalies_of(all.take(0)));
    }
    while i < surface.len()
        invariant
            all == coverage::object_views(surface@),
            c == set@,
            i <= surface@.len(),
            objects@.len() <= i,
            verdict_views(objects@) == verdicts(all.take(i as int), c, include_low_priority),
            coverage::object_views(setuid_inventory@) == setuids(all.take(i as int)),
            coverage::object_views(anomalies@) == anomalies_of(all.take(i as int)),
        decreases surface@.len() - i,
    {
        let object = &surface[i];
        let ghost vs = verdict_views(objects@);
        let ghost us = coverage::object_views(setuid_inventory@);
        let ghost xs = coverage::object_views(anomalies@);
        proof {
            assert(all.take(i + 1).drop_last() =~= all.take(i as int));
            assert(all.take(i + 1).last() == object@);
        }
        match object.class {
            SurfaceClass::Setuid => {
                setuid_inventory.push(object.clone());
                proof {
                    assert(coverage::object_views(setuid_inventory@) =~= us.push(object@));
                }
            },
            _ => {},
        }
        if is_anomaly(object) {
            anomalies.push(object.clone());
            proof {
                assert(coverage::object_views(anomalies@) =~= xs.push(object@));
            }
        }
        match judge(object, &set, include_low_priority) {
            Some(v) => {
                let ghost one = v@;
                objects.push(v);
                proof {
                    assert(verdict_views(objects@) =~= vs.push(one));
                }
            },
            None => {},
        }
        i += 1;
    }
    let ghost vs = verdict_views(objects@);
    proof {
        assert(all.take(i as int) =~= all);
        lemma_total_bound(vs);
        lemma_count_bounds(vs, SurfaceClass::SudoBin);
        lemma_count_bounds(vs, SurfaceClass::Config);
        lemma_count_bounds(vs, SurfaceClass::Unit);
        lemma_count_bounds(vs, SurfaceClass::Group);
        lemma_count_bounds(vs, SurfaceClass::CapFile);
    }
    let sudo_bin = count_class(objects.as_slice(), SurfaceClass::SudoBin);
    let config = count_class(objects.as_slice(), SurfaceClass::Config);
    let unit = count_class(objects.as_slice(), SurfaceClass::Unit);
    let group = count_class(objects.as_slice(), SurfaceClass::Group);
    let capfile = count_class(objects.as_slice(), SurfaceClass::CapFile);
    let overall_covered = sudo_bin.covered + config.covered + unit.covered + group.covered
        + capfile.covered;
    let overall_total = sudo_bin.total + config.total + unit.total + group.total + capfile.total;
    let mut by_class: Vec<ClassCoverage> = Vec::new();
    by_class.push(sudo_bin);
    by_class.push(config);
    by_class.push(unit);
    by_class.push(group);
    by_class.push(capfile);
    proof {
        let ts = tallies(vs);
        assert(tally_views(by_class@) =~= ts);
        lemma_sums(ts);
    }
    let n = os.layers.len();
    let os_target = if n == 0 {
        "".to_owned()
    } else {
        os.layers[n - 1].clone()
    };
    let catalog_version = match &ctx.catalog_version {
        Some(v) => Some(v.clone()),
        None => None,
    };
    let scan_warnings: Vec<ScanDegraded> = Vec::new();
    proof {
        assert(coverage::degraded_views(scan_warnings@) =~= seq![]);
    }
    Ok(
        CoverageReport {
            by_class,
            objects,
            setuid_inventory,
            anomalies,
            overall_covered,
            overall_total,
            catalog_version,
            os_target,
            catalog_warnings,
            scan_warnings,
        },
    )
}

/// The sums over five classes.
proof fn lemma_sums(ts: Seq<TallyView>)
    requires
        ts.len() == 5,
    ensures
        covered_sum(ts) == ts[0].covered + ts[1].covered + ts[2].covered + ts[3].covered
            + ts[4].covered,
        total_sum(ts) == ts[0].total + ts[1].total + ts[2].total + ts[3].total + ts[4].total,
{
    reveal_with_fuel(covered_sum, 6);
    reveal_with_fuel(total_sum, 6);
}

// ---------------------------------------------------------------------------
// Laws
// ---------------------------------------------------------------------------

/// Every verdict is exactly one of four: covered, a gap, left out on purpose, or out of
/// reach of the backend. Only the first two count.
pub proof fn verdicts_are_exclusive(
    o: coverage::ObjectView,
    c: covered::CoveredView,
    include_low_priority: bool,
)
    ensures
        verdict(o, c, include_low_priority) matches Some(v) ==> {
            ||| v == is_covered(o, v.coverage_note) && v.counts()
            ||| v == is_gap(o) && v.counts()
            ||| v.intentional_exclusion matches Some(reason) && v == is_excluded(o, reason)
            ||| v.backend_limited matches Some(reason) && v == is_limited(o, reason)
        },
{
}

/// A setuid object gets no verdict, and enters no count.
pub proof fn setuid_objects_get_no_verdict(
    surface: Seq<coverage::ObjectView>,
    c: covered::CoveredView,
    include_low_priority: bool,
)
    ensures
        forall|i: int|
            0 <= i < verdicts(surface, c, include_low_priority).len() ==> !((
            #[trigger] verdicts(surface, c, include_low_priority)[i]).object.class is Setuid),
        total_of(verdicts(surface, c, include_low_priority), SurfaceClass::Setuid) == 0,
    decreases surface.len(),
{
    if surface.len() > 0 {
        setuid_objects_get_no_verdict(surface.drop_last(), c, include_low_priority);
        let before = verdicts(surface.drop_last(), c, include_low_priority);
        match verdict(surface.last(), c, include_low_priority) {
            Some(v) => {
                assert(before.push(v).drop_last() =~= before);
            },
            None => {},
        }
    }
}

/// A verdict that does not count changes no count.
pub proof fn set_aside_objects_change_no_count(vs: Seq<VerdictView>, v: VerdictView)
    requires
        !v.counts(),
    ensures
        tallies(vs.push(v)) == tallies(vs),
{
    assert(vs.push(v).drop_last() =~= vs);
    assert(tallies(vs.push(v)) =~= tallies(vs));
}

/// An object that is left out on purpose stays out, even where it is granted: the
/// verdict is the same for every covered set.
pub proof fn exclusions_precede_coverage(
    o: coverage::ObjectView,
    c: covered::CoveredView,
    include_low_priority: bool,
)
    requires
        exclusion(o) is Some,
        !(o.class is Setuid),
    ensures
        verdict(o, c, include_low_priority) == Some(is_excluded(o, exclusion(o)->0)),
{
}

/// The strongest cover of a path is one of the grants, and covers it.
proof fn lemma_best_cover(grants: Seq<catalog::GrantView>, path: Seq<char>)
    ensures
        best_cover(grants, path) matches Some(g) ==> g.covers(path) && grants.contains(g),
        best_cover(grants, path) is None <==> forall|i: int|
            0 <= i < grants.len() ==> !(#[trigger] grants[i]).covers(path),
    decreases grants.len(),
{
    if grants.len() > 0 {
        lemma_best_cover(grants.drop_last(), path);
        let before = grants.drop_last();
        assert forall|g: catalog::GrantView| before.contains(g) implies grants.contains(g) by {
            let k = choose|k: int| 0 <= k < before.len() && before[k] == g;
            assert(grants[k] == g);
        }
        assert(grants.contains(grants.last()));
        if best_cover(grants, path) is None {
            assert forall|i: int| 0 <= i < grants.len() implies !(#[trigger] grants[i]).covers(
                path,
            ) by {
                if i < before.len() {
                    assert(grants[i] == before[i]);
                }
            }
        } else if grants.last().covers(path) {
        } else {
            let k = choose|k: int| 0 <= k < before.len() && (#[trigger] before[k]).covers(path);
            assert(grants[k] == before[k]);
        }
    }
}

/// A paper grant covers nothing: a config is covered only by a directory grant of the
/// set over its path.
pub proof fn paper_grants_cover_nothing(
    o: coverage::ObjectView,
    c: covered::CoveredView,
    include_low_priority: bool,
)
    requires
        o.class is Config,
        verdict(o, c, include_low_priority) matches Some(v) && v.covered,
    ensures
        exists|i: int|
            0 <= i < c.file_grants.len() && (#[trigger] c.file_grants[i]).covers(o.key)
                && c.file_grants[i].shape is Dir,
{
    lemma_best_cover(c.file_grants, o.key);
    let g = best_cover(c.file_grants, o.key)->0;
    let k = choose|k: int| 0 <= k < c.file_grants.len() && c.file_grants[k] == g;
    assert(c.file_grants[k].covers(o.key));
}

/// Asking for low-priority configs too changes no verdict that is given without.
pub proof fn low_priority_only_adds(o: coverage::ObjectView, c: covered::CoveredView)
    ensures
        verdict(o, c, false) is Some ==> verdict(o, c, true) == verdict(o, c, false),
{
}

/// How many verdicts count.
pub open spec fn counted(vs: Seq<VerdictView>) -> nat
    decreases vs.len(),
{
    if vs.len() == 0 {
        0
    } else {
        counted(vs.drop_last()) + if vs.last().counts() {
            1nat
        } else {
            0
        }
    }
}

/// How many verdicts are that the object is covered.
pub open spec fn covered_count(vs: Seq<VerdictView>) -> nat
    decreases vs.len(),
{
    if vs.len() == 0 {
        0
    } else {
        covered_count(vs.drop_last()) + if vs.last().counts() && vs.last().covered {
            1nat
        } else {
            0
        }
    }
}

/// The sums of the counts, written out.
proof fn lemma_five_sums(vs: Seq<VerdictView>)
    ensures
        total_sum(tallies(vs)) == total_of(vs, SurfaceClass::SudoBin) + total_of(
            vs,
            SurfaceClass::Config,
        ) + total_of(vs, SurfaceClass::Unit) + total_of(vs, SurfaceClass::Group) + total_of(
            vs,
            SurfaceClass::CapFile,
        ),
        covered_sum(tallies(vs)) == covered_of(vs, SurfaceClass::SudoBin) + covered_of(
            vs,
            SurfaceClass::Config,
        ) + covered_of(vs, SurfaceClass::Unit) + covered_of(vs, SurfaceClass::Group) + covered_of(
            vs,
            SurfaceClass::CapFile,
        ),
{
    reveal_with_fuel(total_sum, 6);
    reveal_with_fuel(covered_sum, 6);
}

/// Every object weighs the same in the overall figure: each verdict on an object of a
/// grant class that counts is counted once, and no count of the covered exceeds that of
/// all.
pub proof fn objects_weigh_the_same(vs: Seq<VerdictView>)
    requires
        forall|i: int| 0 <= i < vs.len() ==> !((#[trigger] vs[i]).object.class is Setuid),
    ensures
        total_sum(tallies(vs)) == counted(vs),
        covered_sum(tallies(vs)) == covered_count(vs),
        covered_sum(tallies(vs)) <= total_sum(tallies(vs)),
    decreases vs.len(),
{
    lemma_five_sums(vs);
    if vs.len() > 0 {
        objects_weigh_the_same(vs.drop_last());
        lemma_five_sums(vs.drop_last());
        assert(!(vs[vs.len() - 1].object.class is Setuid));
    }
}

/// In each class, no more objects are covered than counted.
pub proof fn covered_never_exceeds_counted(vs: Seq<VerdictView>, class: SurfaceClass)
    ensures
        tally(vs, class).covered <= tally(vs, class).total <= vs.len(),
    decreases vs.len(),
{
    if vs.len() > 0 {
        covered_never_exceeds_counted(vs.drop_last(), class);
    }
}

/// Every setuid object is in the inventory, and nothing else is.
pub proof fn the_inventory_is_the_setuid_objects(
    surface: Seq<coverage::ObjectView>,
    o: coverage::ObjectView,
)
    ensures
        setuids(surface).contains(o) <==> surface.contains(o) && o.class is Setuid,
    decreases surface.len(),
{
    if surface.len() > 0 {
        the_inventory_is_the_setuid_objects(surface.drop_last(), o);
        lemma_contains_step(surface, o);
        if surface.last().class is Setuid {
            lemma_contains_step(setuids(surface), o);
            assert(setuids(surface).drop_last() =~= setuids(surface.drop_last()));
        }
    }
}

/// Every orphan setuid or capability-bearing file is an anomaly, and nothing else is.
pub proof fn the_anomalies_are_the_orphans(
    surface: Seq<coverage::ObjectView>,
    o: coverage::ObjectView,
)
    ensures
        anomalies_of(surface).contains(o) <==> surface.contains(o) && anomalous(o),
    decreases surface.len(),
{
    if surface.len() > 0 {
        the_anomalies_are_the_orphans(surface.drop_last(), o);
        lemma_contains_step(surface, o);
        if anomalous(surface.last()) {
            lemma_contains_step(anomalies_of(surface), o);
            assert(anomalies_of(surface).drop_last() =~= anomalies_of(surface.drop_last()));
        }
    }
}

/// A list holds what it holds without its last, and its last.
proof fn lemma_contains_step(list: Seq<coverage::ObjectView>, o: coverage::ObjectView)
    requires
        list.len() > 0,
    ensures
        list.contains(o) <==> list.drop_last().contains(o) || list.last() == o,
{
    if list.contains(o) && list.last() != o {
        let k = choose|k: int| 0 <= k < list.len() && list[k] == o;
        assert(list.drop_last()[k] == o);
    }
    if list.drop_last().contains(o) {
        let k = choose|k: int| 0 <= k < list.drop_last().len() && list.drop_last()[k] == o;
        assert(list[k] == o);
    }
}

/// How strong a grant is: a directory grant before any other, and then one that writes
/// before one that reads.
pub open spec fn strength(g: catalog::GrantView) -> int {
    (if g.shape is Dir {
        2int
    } else {
        0
    }) + (if g.access is Rw {
        1int
    } else {
        0
    })
}

/// The cover of a path is the first of the strongest grants that cover it; there is none
/// only where no grant covers it.
pub proof fn the_first_of_the_strongest_covers(grants: Seq<catalog::GrantView>, path: Seq<char>)
    ensures
        match best_cover(grants, path) {
            None => forall|i: int| 0 <= i < grants.len() ==> !(#[trigger] grants[i]).covers(path),
            Some(g) => exists|i: int|
                {
                    &&& 0 <= i < grants.len()
                    &&& (#[trigger] grants[i]) == g
                    &&& g.covers(path)
                    &&& forall|j: int|
                        0 <= j < grants.len() && (#[trigger] grants[j]).covers(path) ==> {
                            &&& strength(grants[j]) <= strength(g)
                            &&& j < i ==> strength(grants[j]) < strength(g)
                        }
                },
        },
    decreases grants.len(),
{
    if grants.len() > 0 {
        let before = grants.drop_last();
        let last = grants.last();
        let n = grants.len() - 1;
        the_first_of_the_strongest_covers(before, path);
        match best_cover(before, path) {
            None => {
                assert forall|i: int| 0 <= i < n implies !(#[trigger] grants[i]).covers(path) by {
                    assert(before[i] == grants[i]);
                }
                if last.covers(path) {
                    assert(grants[n] == last);
                }
            },
            Some(g) => {
                let i = choose|i: int|
                    {
                        &&& 0 <= i < before.len()
                        &&& (#[trigger] before[i]) == g
                        &&& g.covers(path)
                        &&& forall|j: int|
                            0 <= j < before.len() && (#[trigger] before[j]).covers(path) ==> {
                                &&& strength(before[j]) <= strength(g)
                                &&& j < i ==> strength(before[j]) < strength(g)
                            }
                    };
                assert(grants[i] == g);
                assert forall|j: int| 0 <= j < n && (#[trigger] grants[j]).covers(path) implies {
                    &&& strength(grants[j]) <= strength(g)
                    &&& j < i ==> strength(grants[j]) < strength(g)
                } by {
                    assert(before[j] == grants[j]);
                }
                assert(grants[n] == last);
            },
        }
    }
}

/// Which configs count: those that are security-relevant, and those that a grant covers.
/// Those that cannot be granted by their directory are the ones directly in one of these.
pub proof fn configs_in_scope_and_in_broad_parents(
    path: Seq<char>,
    grants: Seq<catalog::GrantView>,
)
    ensures
        in_scope(path, grants) <==> policy::security_relevant(path) || exists|i: int|
            0 <= i < grants.len() && (#[trigger] grants[i]).covers(path),
        in_broad_parent(path) <==> {
            let dir = catalog::parent_of(path);
            ||| dir == "/"@
            ||| dir == "/etc"@
            ||| dir == "/usr"@
            ||| dir == "/usr/local"@
            ||| dir == "/var"@
            ||| dir == "/boot"@
            ||| dir == "/opt"@
            ||| dir == "/run"@
            ||| dir == "/etc/ssl"@
            ||| dir == "/etc/pki"@
            ||| dir == "/etc/ca-certificates"@
        },
{
    lemma_best_cover(grants, path);
    policy::parents_never_granted(catalog::parent_of(path));
    text::listed_is_contained(
        text::str_views(NON_GRANTABLE_PARENTS@),
        catalog::parent_of(path),
    );
}

/// What is left out on purpose: binaries, sudo and setuid ones alike, that are the
/// escalation substrate or whose name begins with `pdpl` or `parsec`; groups that are admin
/// by design or whose name begins with `bfs_` or `ndc_`; and groups that gate nothing.
pub proof fn what_is_left_out_on_purpose(o: coverage::ObjectView)
    ensures
        ({
            let name = catalog::base_of(o.key);
            let binary = o.class is SudoBin || o.class is Setuid;
            let substrate = {
                ||| name == "su"@
                ||| name == "sudo"@
                ||| name == "pkexec"@
                ||| name == "newgrp"@
                ||| name == "sg"@
            };
            let mandatory = text::starts_with(name, "pdpl"@) || text::starts_with(name, "parsec"@);
            let admin = {
                ||| o.key == "astra-admin"@
                ||| o.key == "astra-console"@
                ||| o.key == "sudo"@
                ||| o.key == "wheel"@
                ||| text::starts_with(o.key, "bfs_"@)
                ||| text::starts_with(o.key, "ndc_"@)
            };
            let noise = {
                ||| o.key == "messagebus"@
                ||| o.key == "crontab"@
                ||| o.key == "ssl-cert"@
            };
            &&& binary && substrate ==> exclusion(o) == Some(
                "escalation mechanism (not an object of grant)"@,
            )
            &&& binary && !substrate && mandatory ==> exclusion(o) == Some(
                "MAC/pdpl — commercial ParsecBackend layer"@,
            )
            &&& o.class is Group && admin ==> exclusion(o) == Some(
                "admin-by-design / app site-layer group"@,
            )
            &&& o.class is Group && !admin && noise ==> exclusion(o) == Some(
                "noise group (not gate-keeping to a grant)"@,
            )
            &&& exclusion(o) is Some <==> (binary && (substrate || mandatory)) || (o.class is Group
                && (admin || noise))
        }),
{
    let name = catalog::base_of(o.key);
    let e = text::str_views(ESCALATION_BINARIES@);
    assert(e[0] == "su"@);
    assert(e[1] == "sudo"@);
    assert(e[2] == "pkexec"@);
    assert(e[3] == "newgrp"@);
    assert(e[4] == "sg"@);
    assert(e.len() == 5);
    let a = text::str_views(ADMIN_GROUPS@);
    assert(a[0] == "astra-admin"@);
    assert(a[1] == "astra-console"@);
    assert(a[2] == "sudo"@);
    assert(a[3] == "wheel"@);
    assert(a.len() == 4);
    let n = text::str_views(NOISE_GROUPS@);
    assert(n[0] == "messagebus"@);
    assert(n[1] == "crontab"@);
    assert(n[2] == "ssl-cert"@);
    assert(n.len() == 3);
    text::listed_is_contained(e, name);
    text::listed_is_contained(a, o.key);
    text::listed_is_contained(n, o.key);
}

/// The permission that would cover a binary, by its name. No other binary has one.
pub proof fn permissions_for_binaries(name: Seq<char>)
    ensures
        name == "cryptsetup"@ ==> binary_suggestion(name) == Some("luks-admin"@),
        name == "setcap"@ ==> binary_suggestion(name) == Some("capability-admin"@),
        name == "getcap"@ ==> binary_suggestion(name) == Some("capability-admin"@),
        name == "aa-enforce"@ ==> binary_suggestion(name) == Some("apparmor-admin"@),
        name == "aa-complain"@ ==> binary_suggestion(name) == Some("apparmor-admin"@),
        name == "apparmor_parser"@ ==> binary_suggestion(name) == Some("apparmor-admin"@),
        name == "aa-status"@ ==> binary_suggestion(name) == Some("apparmor-admin"@),
        name == "update-ca-certificates"@ ==> binary_suggestion(name) == Some("ca-trust-admin"@),
        name == "auditctl"@ ==> binary_suggestion(name) == Some("audit-config"@),
        name == "augenrules"@ ==> binary_suggestion(name) == Some("audit-config"@),
        name == "useradd"@ ==> binary_suggestion(name) == Some("user-admin"@),
        name == "usermod"@ ==> binary_suggestion(name) == Some("user-admin"@),
        name == "userdel"@ ==> binary_suggestion(name) == Some("user-admin"@),
        name == "chpasswd"@ ==> binary_suggestion(name) == Some("user-admin"@),
        name == "modprobe"@ ==> binary_suggestion(name) == Some("driver-config"@),
        name == "rmmod"@ ==> binary_suggestion(name) == Some("driver-config"@),
        name == "sysctl"@ ==> binary_suggestion(name) == Some("kernel-tune"@),
        name == "parted"@ ==> binary_suggestion(name) == Some("disk-admin"@),
        name == "fdisk"@ ==> binary_suggestion(name) == Some("disk-admin"@),
        name == "lvm"@ ==> binary_suggestion(name) == Some("disk-admin"@),
        name == "reboot"@ ==> binary_suggestion(name) == Some("power-control"@),
        name == "shutdown"@ ==> binary_suggestion(name) == Some("power-control"@),
        name == "poweroff"@ ==> binary_suggestion(name) == Some("power-control"@),
        name == "halt"@ ==> binary_suggestion(name) == Some("power-control"@),
        name == "iptables"@ ==> binary_suggestion(name) == Some("firewall-admin"@),
        name == "iptables-restore"@ ==> binary_suggestion(name) == Some("firewall-admin"@),
        name == "nft"@ ==> binary_suggestion(name) == Some("firewall-admin"@),
        binary_suggestion(name) is Some ==> {
            ||| name == "cryptsetup"@
            ||| name == "setcap"@
            ||| name == "getcap"@
            ||| name == "aa-enforce"@
            ||| name == "aa-complain"@
            ||| name == "apparmor_parser"@
            ||| name == "aa-status"@
            ||| name == "update-ca-certificates"@
            ||| name == "auditctl"@
            ||| name == "augenrules"@
            ||| name == "useradd"@
            ||| name == "usermod"@
            ||| name == "userdel"@
            ||| name == "chpasswd"@
            ||| name == "modprobe"@
            ||| name == "rmmod"@
            ||| name == "sysctl"@
            ||| name == "parted"@
            ||| name == "fdisk"@
            ||| name == "lvm"@
            ||| name == "reboot"@
            ||| name == "shutdown"@
            ||| name == "poweroff"@
            ||| name == "halt"@
            ||| name == "iptables"@
            ||| name == "iptables-restore"@
            ||| name == "nft"@
        },
{
    reveal_strlit("cryptsetup");
    reveal_strlit("setcap");
    reveal_strlit("getcap");
    reveal_strlit("aa-enforce");
    reveal_strlit("aa-complain");
    reveal_strlit("apparmor_parser");
    reveal_strlit("aa-status");
    reveal_strlit("update-ca-certificates");
    reveal_strlit("auditctl");
    reveal_strlit("augenrules");
    reveal_strlit("useradd");
    reveal_strlit("usermod");
    reveal_strlit("userdel");
    reveal_strlit("chpasswd");
    reveal_strlit("modprobe");
    reveal_strlit("rmmod");
    reveal_strlit("sysctl");
    reveal_strlit("parted");
    reveal_strlit("fdisk");
    reveal_strlit("lvm");
    reveal_strlit("reboot");
    reveal_strlit("shutdown");
    reveal_strlit("poweroff");
    reveal_strlit("halt");
    reveal_strlit("iptables");
    reveal_strlit("iptables-restore");
    reveal_strlit("nft");
    assert("cryptsetup"@.len() == 10);
    assert("setcap"@.len() == 6);
    assert("getcap"@.len() == 6);
    assert("aa-enforce"@.len() == 10);
    assert("aa-complain"@.len() == 11);
    assert("apparmor_parser"@.len() == 15);
    assert("aa-status"@.len() == 9);
    assert("update-ca-certificates"@.len() == 22);
    assert("auditctl"@.len() == 8);
    assert("augenrules"@.len() == 10);
    assert("useradd"@.len() == 7);
    assert("usermod"@.len() == 7);
    assert("userdel"@.len() == 7);
    assert("chpasswd"@.len() == 8);
    assert("modprobe"@.len() == 8);
    assert("rmmod"@.len() == 5);
    assert("sysctl"@.len() == 6);
    assert("parted"@.len() == 6);
    assert("fdisk"@.len() == 5);
    assert("lvm"@.len() == 3);
    assert("reboot"@.len() == 6);
    assert("shutdown"@.len() == 8);
    assert("poweroff"@.len() == 8);
    assert("halt"@.len() == 4);
    assert("iptables"@.len() == 8);
    assert("iptables-restore"@.len() == 16);
    assert("nft"@.len() == 3);
    assert("cryptsetup"@[0] == 'c' && "aa-enforce"@[0] == 'a');
    assert("cryptsetup"@[0] == 'c' && "augenrules"@[0] == 'a');
    assert("setcap"@[0] == 's' && "getcap"@[0] == 'g');
    assert("setcap"@[1] == 'e' && "sysctl"@[1] == 'y');
    assert("setcap"@[0] == 's' && "parted"@[0] == 'p');
    assert("setcap"@[0] == 's' && "reboot"@[0] == 'r');
    assert("getcap"@[0] == 'g' && "sysctl"@[0] == 's');
    assert("getcap"@[0] == 'g' && "parted"@[0] == 'p');
    assert("getcap"@[0] == 'g' && "reboot"@[0] == 'r');
    assert("aa-enforce"@[1] == 'a' && "augenrules"@[1] == 'u');
    assert("auditctl"@[0] == 'a' && "chpasswd"@[0] == 'c');
    assert("auditctl"@[0] == 'a' && "modprobe"@[0] == 'm');
    assert("auditctl"@[0] == 'a' && "shutdown"@[0] == 's');
    assert("auditctl"@[0] == 'a' && "poweroff"@[0] == 'p');
    assert("auditctl"@[0] == 'a' && "iptables"@[0] == 'i');
    assert("useradd"@[4] == 'a' && "usermod"@[4] == 'm');
    assert("useradd"@[4] == 'a' && "userdel"@[4] == 'd');
    assert("usermod"@[4] == 'm' && "userdel"@[4] == 'd');
    assert("chpasswd"@[0] == 'c' && "modprobe"@[0] == 'm');
    assert("chpasswd"@[0] == 'c' && "shutdown"@[0] == 's');
    assert("chpasswd"@[0] == 'c' && "poweroff"@[0] == 'p');
    assert("chpasswd"@[0] == 'c' && "iptables"@[0] == 'i');
    assert("modprobe"@[0] == 'm' && "shutdown"@[0] == 's');
    assert("modprobe"@[0] == 'm' && "poweroff"@[0] == 'p');
    assert("modprobe"@[0] == 'm' && "iptables"@[0] == 'i');
    assert("rmmod"@[0] == 'r' && "fdisk"@[0] == 'f');
    assert("sysctl"@[0] == 's' && "parted"@[0] == 'p');
    assert("sysctl"@[0] == 's' && "reboot"@[0] == 'r');
    assert("parted"@[0] == 'p' && "reboot"@[0] == 'r');
    assert("lvm"@[0] == 'l' && "nft"@[0] == 'n');
    assert("shutdown"@[0] == 's' && "poweroff"@[0] == 'p');
    assert("shutdown"@[0] == 's' && "iptables"@[0] == 'i');
    assert("poweroff"@[0] == 'p' && "iptables"@[0] == 'i');
}

/// The permission that would cover a group. No other group has one.
pub proof fn permissions_for_groups(name: Seq<char>)
    ensures
        name == "netdev"@ ==> group_suggestion(name) == Some("network-admin"@),
        name == "dialout"@ ==> group_suggestion(name) == Some("device-serial"@),
        name == "plugdev"@ ==> group_suggestion(name) == Some("device-usb"@),
        name == "disk"@ ==> group_suggestion(name) == Some("disk-admin"@),
        name == "adm"@ ==> group_suggestion(name) == Some("log-read"@),
        name == "systemd-journal"@ ==> group_suggestion(name) == Some("log-read"@),
        name == "docker"@ ==> group_suggestion(name) == Some("docker.admin"@),
        name == "lpadmin"@ ==> group_suggestion(name) == Some("print-admin"@),
        group_suggestion(name) is Some ==> {
            ||| name == "netdev"@
            ||| name == "dialout"@
            ||| name == "plugdev"@
            ||| name == "disk"@
            ||| name == "adm"@
            ||| name == "systemd-journal"@
            ||| name == "docker"@
            ||| name == "lpadmin"@
        },
{
    reveal_strlit("netdev");
    reveal_strlit("dialout");
    reveal_strlit("plugdev");
    reveal_strlit("disk");
    reveal_strlit("adm");
    reveal_strlit("systemd-journal");
    reveal_strlit("docker");
    reveal_strlit("lpadmin");
    assert("netdev"@.len() == 6);
    assert("dialout"@.len() == 7);
    assert("plugdev"@.len() == 7);
    assert("disk"@.len() == 4);
    assert("adm"@.len() == 3);
    assert("systemd-journal"@.len() == 15);
    assert("docker"@.len() == 6);
    assert("lpadmin"@.len() == 7);
    assert("netdev"@[0] == 'n' && "docker"@[0] == 'd');
    assert("dialout"@[0] == 'd' && "plugdev"@[0] == 'p');
    assert("dialout"@[0] == 'd' && "lpadmin"@[0] == 'l');
    assert("plugdev"@[0] == 'p' && "lpadmin"@[0] == 'l');
}

/// What is suggested for a gap: for a binary by its name, for a group, for a file with a
/// capability, and for a config a grant on its directory. For a unit nothing is.
pub proof fn suggestions_by_class(o: coverage::ObjectView)
    ensures
        o.class is SudoBin ==> suggestion(o) == binary_suggestion(catalog::base_of(o.key)),
        o.class is Group ==> suggestion(o) == group_suggestion(o.key),
        o.class is CapFile ==> suggestion(o) == Some("capability-admin"@),
        o.class is Config ==> suggestion(o) == Some(
            "file grant rw on "@ + catalog::parent_of(o.key) + " (recursive)"@,
        ),
        o.class is Unit || o.class is Setuid ==> suggestion(o) is None,
{
}

/// What covers an object that is no config: a binary and a group that are in the set; a unit
/// that is named with `.service` or without, or all units; all files with a capability.
pub proof fn coverage_by_class(o: coverage::ObjectView, c: covered::CoveredView)
    ensures
        o.class is SudoBin ==> (object_is_covered(o, c) <==> c.sudo_binaries.contains(o.key)),
        o.class is Group ==> (object_is_covered(o, c) <==> c.groups.contains(o.key)),
        o.class is Unit ==> (object_is_covered(o, c) <==> c.service_admin || c.units.contains(o.key)
            || c.units.contains(text::without_suffix(o.key, ".service"@)) || c.units.contains(
            text::without_suffix(o.key, ".service"@) + ".service"@,
        )),
        o.class is CapFile ==> (object_is_covered(o, c) <==> c.capability_admin),
        o.class is Config || o.class is Setuid ==> !object_is_covered(o, c),
{
}

/// The verdict on a config. Where a grant covers it, the best one decides: a directory grant
/// covers it and says how, any other needs another backend. Where none does, it is out of
/// reach directly in a broad directory, and a gap elsewhere.
pub proof fn verdicts_on_configs(o: coverage::ObjectView, grants: Seq<catalog::GrantView>)
    ensures
        ({
            let v = config_verdict(o, grants);
            let best = best_cover(grants, o.key);
            &&& v.object == o
            &&& v.intentional_exclusion is None
            &&& v.covered <==> best is Some && best->0.shape is Dir
            &&& v.covered ==> v.coverage_note == Some(
                best->0.access.text() + " via AclBackend (dir)"@,
            )
            &&& !v.covered ==> v.coverage_note is None
            &&& v.backend_limited is Some <==> !v.covered && (best is Some
                || in_broad_parent(o.key))
            &&& best is Some && best->0.shape is File ==> v.backend_limited == Some(
                "declared "@ + "File"@ + " grant; requires "@ + "per-file-capable backend"@,
            )
            &&& best is Some && best->0.shape is Pattern ==> v.backend_limited == Some(
                "declared "@ + "Pattern"@ + " grant; requires "@ + "pattern-capable backend"@,
            )
            &&& best is None && in_broad_parent(o.key) ==> v.backend_limited == Some(
                "single file in non-grantable parent; requires per-file-capable backend"@,
            )
            &&& v.suggested_permission == (if best is None && !in_broad_parent(o.key) {
                suggestion(o)
            } else {
                None
            })
        }),
{
}

/// The verdict on any object: none on a setuid one, and none on a config out of scope unless
/// low-priority ones are asked for. What is left out on purpose is said to be, whatever is
/// granted. A config is then judged by its grants, and all else by whether it is covered.
pub proof fn verdicts_by_class(
    o: coverage::ObjectView,
    c: covered::CoveredView,
    include_low_priority: bool,
)
    ensures
        verdict(o, c, include_low_priority) is None <==> o.class is Setuid || (o.class is Config
            && !include_low_priority && !in_scope(o.key, c.file_grants)),
        verdict(o, c, include_low_priority) matches Some(v) ==> {
            &&& v.object == o
            &&& v.intentional_exclusion == exclusion(o)
            &&& exclusion(o) is Some ==> !v.covered && v.suggested_permission is None
                && v.backend_limited is None && v.coverage_note is None
            &&& exclusion(o) is None && o.class is Config ==> v == config_verdict(o, c.file_grants)
            &&& exclusion(o) is None && !(o.class is Config) ==> {
                &&& v.covered <==> object_is_covered(o, c)
                &&& v.suggested_permission == (if v.covered {
                    None
                } else {
                    suggestion(o)
                })
                &&& v.backend_limited is None
                &&& v.coverage_note is None
            }
        },
{
}

/// Each object is judged for itself, in order.
pub proof fn verdicts_are_given_one_by_one(
    a: Seq<coverage::ObjectView>,
    b: Seq<coverage::ObjectView>,
    c: covered::CoveredView,
    include_low_priority: bool,
)
    ensures
        verdicts(Seq::<coverage::ObjectView>::empty(), c, include_low_priority).len() == 0,
        verdicts(a + b, c, include_low_priority) == verdicts(a, c, include_low_priority)
            + verdicts(b, c, include_low_priority),
    decreases b.len(),
{
    if b.len() == 0 {
        assert(a + b =~= a);
        assert(verdicts(a, c, include_low_priority) + verdicts(b, c, include_low_priority)
            =~= verdicts(a, c, include_low_priority));
    } else {
        verdicts_are_given_one_by_one(a, b.drop_last(), c, include_low_priority);
        assert((a + b).drop_last() =~= a + b.drop_last());
        assert((a + b).last() == b.last());
        assert(verdicts(a + b, c, include_low_priority) =~= verdicts(a, c, include_low_priority)
            + verdicts(b, c, include_low_priority));
    }
}

/// The setuid objects are listed in order.
pub proof fn setuid_objects_add_up(a: Seq<coverage::ObjectView>, b: Seq<coverage::ObjectView>)
    ensures
        setuids(Seq::<coverage::ObjectView>::empty()).len() == 0,
        setuids(a + b) == setuids(a) + setuids(b),
    decreases b.len(),
{
    if b.len() == 0 {
        assert(a + b =~= a);
        assert(setuids(a) + setuids(b) =~= setuids(a));
    } else {
        setuid_objects_add_up(a, b.drop_last());
        assert((a + b).drop_last() =~= a + b.drop_last());
        assert((a + b).last() == b.last());
        assert(setuids(a + b) =~= setuids(a) + setuids(b));
    }
}

/// The anomalies are listed in order.
pub proof fn anomalies_add_up(a: Seq<coverage::ObjectView>, b: Seq<coverage::ObjectView>)
    ensures
        anomalies_of(Seq::<coverage::ObjectView>::empty()).len() == 0,
        anomalies_of(a + b) == anomalies_of(a) + anomalies_of(b),
    decreases b.len(),
{
    if b.len() == 0 {
        assert(a + b =~= a);
        assert(anomalies_of(a) + anomalies_of(b) =~= anomalies_of(a));
    } else {
        anomalies_add_up(a, b.drop_last());
        assert((a + b).drop_last() =~= a + b.drop_last());
        assert((a + b).last() == b.last());
        assert(anomalies_of(a + b) =~= anomalies_of(a) + anomalies_of(b));
    }
}

/// One object: its verdict, where it gets one; it is on the inventory where it is setuid, and
/// an anomaly where it is a setuid or capability-bearing file of no package.
pub proof fn one_object(
    o: coverage::ObjectView,
    c: covered::CoveredView,
    include_low_priority: bool,
)
    ensures
        verdict(o, c, include_low_priority) is None ==> verdicts(
            seq![o],
            c,
            include_low_priority,
        ).len() == 0,
        verdict(o, c, include_low_priority) matches Some(v) ==> verdicts(
            seq![o],
            c,
            include_low_priority,
        ) == seq![v],
        setuids(seq![o]) == (if o.class is Setuid {
            seq![o]
        } else {
            seq![]
        }),
        anomalies_of(seq![o]) == (if (o.class is Setuid || o.class is CapFile)
            && o.provenance is Orphan {
            seq![o]
        } else {
            seq![]
        }),
{
    reveal_with_fuel(verdicts, 2);
    reveal_with_fuel(setuids, 2);
    reveal_with_fuel(anomalies_of, 2);
    assert(seq![o].drop_last() =~= seq![]);
    assert(seq![o].last() == o);
    assert(Seq::<coverage::ObjectView>::empty().push(o) =~= seq![o]);
    if let Some(v) = verdict(o, c, include_low_priority) {
        assert(Seq::<VerdictView>::empty().push(v) =~= seq![v]);
    }
}

/// One verdict more: it counts in its own class where it is neither an exclusion nor a limit
/// of the backend, and as covered where it says so.
pub proof fn one_verdict_more(vs: Seq<VerdictView>, v: VerdictView, class: SurfaceClass)
    ensures
        total_of(Seq::<VerdictView>::empty(), class) == 0,
        covered_of(Seq::<VerdictView>::empty(), class) == 0,
        ({
            let counted = v.object.class == class && v.intentional_exclusion is None
                && v.backend_limited is None;
            &&& total_of(vs.push(v), class) == total_of(vs, class) + (if counted {
                1int
            } else {
                0
            })
            &&& covered_of(vs.push(v), class) == covered_of(vs, class) + (if counted && v.covered {
                1int
            } else {
                0
            })
        }),
{
    assert(vs.push(v).drop_last() =~= vs);
    assert(vs.push(v).last() == v);
}

/// The counts are told class by class, in this order, and the overall counts are their sums.
pub proof fn counts_are_told_by_class(vs: Seq<VerdictView>)
    ensures
        tallies(vs).len() == 5,
        tallies(vs)[0].class is SudoBin,
        tallies(vs)[1].class is Config,
        tallies(vs)[2].class is Unit,
        tallies(vs)[3].class is Group,
        tallies(vs)[4].class is CapFile,
        forall|i: int|
            0 <= i < 5 ==> (#[trigger] tallies(vs)[i]).total == total_of(vs, tallies(vs)[i].class)
                && tallies(vs)[i].covered == covered_of(vs, tallies(vs)[i].class),
        covered_sum(tallies(vs)) == covered_of(vs, SurfaceClass::SudoBin) + covered_of(
            vs,
            SurfaceClass::Config,
        ) + covered_of(vs, SurfaceClass::Unit) + covered_of(vs, SurfaceClass::Group) + covered_of(
            vs,
            SurfaceClass::CapFile,
        ),
        total_sum(tallies(vs)) == total_of(vs, SurfaceClass::SudoBin) + total_of(
            vs,
            SurfaceClass::Config,
        ) + total_of(vs, SurfaceClass::Unit) + total_of(vs, SurfaceClass::Group) + total_of(
            vs,
            SurfaceClass::CapFile,
        ),
{
    lemma_sums(tallies(vs));
}

/// The part that is covered: all of nothing, and else what is covered out of what counts.
pub proof fn nothing_to_cover_is_covered(covered: nat, total: nat)
    ensures
        total == 0 ==> covered_part(covered, total) == (1nat, 1nat),
        total > 0 ==> covered_part(covered, total) == (covered, total),
{
}

/// A report says of every part what it is asked to: the verdicts of the surface against what
/// the catalog, the roles and the bound groups cover, and the counts of those verdicts. The
/// target is the most specific layer.
pub proof fn reports_say_what_was_asked(
    surface: Seq<coverage::ObjectView>,
    entries: Seq<coverage::EntryView>,
    os: OsTarget,
    roles: Seq<coverage::ExpansionView>,
    ctx: CoverageCtx,
    include_low_priority: bool,
)
    ensures
        ({
            let r = report_of(surface, entries, os, roles, ctx, include_low_priority);
            let c = covered::covered_by(
                entries,
                roles,
                ctx.strict,
                text::views(ctx.bound_grant_groups@),
            );
            let layers = text::views(os.layers@);
            &&& r.objects == verdicts(surface, c, include_low_priority)
            &&& r.by_class == tallies(r.objects)
            &&& r.overall_covered == covered_sum(r.by_class)
            &&& r.overall_total == total_sum(r.by_class)
            &&& r.setuid_inventory == setuids(surface)
            &&& r.anomalies == anomalies_of(surface)
            &&& r.catalog_warnings == covered::unresolved(entries)
            &&& r.scan_warnings.len() == 0
            &&& layers.len() > 0 ==> r.os_target == layers[layers.len() - 1]
            &&& layers.len() == 0 ==> r.os_target.len() == 0
            &&& ctx.catalog_version is None <==> r.catalog_version is None
            &&& ctx.catalog_version matches Some(v) ==> r.catalog_version == Some(v@)
        }),
{
    reveal_strlit("");
}

} // verus!
