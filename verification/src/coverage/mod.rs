//! Catalog coverage: what of the device's privileged surface the installed permission
//! catalog does not cover.
//!
//! The surface is a finite, enumerable set of system objects across classes. Coverage is
//! computed against the expanded primitives of the catalog (sudo commands, groups, file
//! grants): an object is covered when some resolved permission would grant it.
//!
//! A setuid binary runs as root whoever calls it, so no grant covers it. Setuid objects
//! are an inventory of their own, and one that no package owns is an anomaly to
//! investigate, not a gap that penalises the metric.

use vstd::prelude::*;

use crate::catalog;
use crate::catalog::ResolvedFileGrant;
use crate::text;

pub mod capture;
pub mod covered;
pub mod lookup;
pub mod parse;
pub mod policy;
pub mod report;
pub mod scan;
pub mod setuid;

verus! {

broadcast use vstd::string::group_string_axioms;

// ---------------------------------------------------------------------------
// The surface
// ---------------------------------------------------------------------------

/// A class of privileged surface object.
#[derive(Debug, Clone, Copy, PartialEq, Eq, Structural)]
pub enum SurfaceClass {
    /// A binary reachable via sudo.
    SudoBin,
    /// A security-relevant `/etc` config.
    Config,
    /// A systemd unit.
    Unit,
    /// A gate-keeping group.
    Group,
    /// A capability-bearing file.
    CapFile,
    /// A setuid/setgid binary: inventory and anomaly, not a grant object.
    Setuid,
}

impl SurfaceClass {
    /// The token of a class.
    pub open spec fn text(self) -> Seq<char> {
        match self {
            SurfaceClass::SudoBin => "sudo_bin"@,
            SurfaceClass::Config => "config"@,
            SurfaceClass::Unit => "unit"@,
            SurfaceClass::Group => "group"@,
            SurfaceClass::CapFile => "capfile"@,
            SurfaceClass::Setuid => "setuid"@,
        }
    }

    /// Stable lowercase token used in filters and output.
    pub fn as_str(self) -> (r: &'static str)
        ensures
            r@ == self.text(),
    {
        match self {
            SurfaceClass::SudoBin => "sudo_bin",
            SurfaceClass::Config => "config",
            SurfaceClass::Unit => "unit",
            SurfaceClass::Group => "group",
            SurfaceClass::CapFile => "capfile",
            SurfaceClass::Setuid => "setuid",
        }
    }
}

/// Who put a surface object on the device.
#[derive(Debug, PartialEq, Eq)]
pub enum Provenance {
    /// Owned by a base OS package.
    Vendor,
    /// Owned by a recognizable add-on package (carries the package name).
    Addon(String),
    /// Not owned by any package.
    Orphan,
}

/// The contents of a [`Provenance`].
pub enum ProvenanceView {
    /// See [`Provenance::Vendor`].
    Vendor,
    /// See [`Provenance::Addon`].
    Addon(Seq<char>),
    /// See [`Provenance::Orphan`].
    Orphan,
}

impl View for Provenance {
    type V = ProvenanceView;

    open spec fn view(&self) -> ProvenanceView {
        match self {
            Provenance::Vendor => ProvenanceView::Vendor,
            Provenance::Addon(name) => ProvenanceView::Addon(name@),
            Provenance::Orphan => ProvenanceView::Orphan,
        }
    }
}

impl Clone for Provenance {
    fn clone(&self) -> (r: Self)
        ensures
            r@ == self@,
    {
        match self {
            Provenance::Vendor => Provenance::Vendor,
            Provenance::Addon(name) => Provenance::Addon(name.clone()),
            Provenance::Orphan => Provenance::Orphan,
        }
    }
}

/// One enumerated privileged-surface object.
#[derive(Debug, PartialEq, Eq)]
pub struct SurfaceObject {
    /// Which class of surface this is.
    pub class: SurfaceClass,
    /// Canonical key: binary path, config path, unit name, or group name.
    pub key: String,
    /// Who placed it on the device.
    pub provenance: Provenance,
    /// Free-form detail for the report.
    pub detail: String,
}

/// The contents of a [`SurfaceObject`].
#[verifier::ext_equal]
pub struct ObjectView {
    /// The class.
    pub class: SurfaceClass,
    /// The canonical key.
    pub key: Seq<char>,
    /// Who placed it on the device.
    pub provenance: ProvenanceView,
    /// The detail.
    pub detail: Seq<char>,
}

impl View for SurfaceObject {
    type V = ObjectView;

    open spec fn view(&self) -> ObjectView {
        ObjectView {
            class: self.class,
            key: self.key@,
            provenance: self.provenance@,
            detail: self.detail@,
        }
    }
}

impl Clone for SurfaceObject {
    fn clone(&self) -> (r: Self)
        ensures
            r@ == self@,
    {
        SurfaceObject {
            class: self.class,
            key: self.key.clone(),
            provenance: self.provenance.clone(),
            detail: self.detail.clone(),
        }
    }
}

/// The contents of a list of objects.
pub open spec fn object_views(v: Seq<SurfaceObject>) -> Seq<ObjectView> {
    v.map_values(|o: SurfaceObject| o@)
}

/// One class's scan degradation: the class whose live enumeration could not be trusted,
/// and a human reason.
#[derive(Debug, Clone, PartialEq, Eq)]
pub struct ScanDegraded {
    /// The class whose enumeration degraded.
    pub class: SurfaceClass,
    /// Why the class could not be trusted.
    pub reason: String,
}

/// The contents of a [`ScanDegraded`].
#[verifier::ext_equal]
pub struct DegradedView {
    /// The class.
    pub class: SurfaceClass,
    /// The reason.
    pub reason: Seq<char>,
}

impl View for ScanDegraded {
    type V = DegradedView;

    open spec fn view(&self) -> DegradedView {
        DegradedView { class: self.class, reason: self.reason@ }
    }
}

/// The contents of a list of degradations.
pub open spec fn degraded_views(v: Seq<ScanDegraded>) -> Seq<DegradedView> {
    v.map_values(|d: ScanDegraded| d@)
}

/// A surface-scan result: the enumerated objects plus any per-class degradations.
///
/// A degradation is distinct from an empty class. A class is legitimately empty when its
/// scan tool is absent; it is degraded when the tool is there but its run could not be
/// trusted.
#[derive(Debug, Clone, PartialEq, Eq)]
pub struct ScanOutcome {
    /// Every enumerated surface object across the requested classes.
    pub objects: Vec<SurfaceObject>,
    /// Per-class scan degradations. Empty on a clean scan.
    pub degraded: Vec<ScanDegraded>,
}

/// The contents of a [`ScanOutcome`].
#[verifier::ext_equal]
pub struct OutcomeView {
    /// The objects.
    pub objects: Seq<ObjectView>,
    /// The degradations.
    pub degraded: Seq<DegradedView>,
}

impl View for ScanOutcome {
    type V = OutcomeView;

    open spec fn view(&self) -> OutcomeView {
        OutcomeView {
            objects: object_views(self.objects@),
            degraded: degraded_views(self.degraded@),
        }
    }
}

impl Default for ScanOutcome {
    /// An outcome of nothing.
    fn default() -> (r: Self)
        ensures
            r@ == (OutcomeView { objects: seq![], degraded: seq![] }),
    {
        let r = ScanOutcome { objects: Vec::new(), degraded: Vec::new() };
        proof {
            assert(r@.objects =~= seq![]);
            assert(r@.degraded =~= seq![]);
        }
        r
    }
}

/// Errors computing coverage or enumerating the surface.
#[derive(Debug, PartialEq, Eq)]
#[non_exhaustive]
pub enum CoverageError {
    /// The catalog could not be listed.
    Catalog(String),
    /// The live surface could not be enumerated. Carries a human reason.
    Scan(String),
}

/// The contents of a [`CoverageError`].
pub enum CoverageErrorView {
    /// See [`CoverageError::Catalog`].
    Catalog(Seq<char>),
    /// See [`CoverageError::Scan`].
    Scan(Seq<char>),
}

impl View for CoverageError {
    type V = CoverageErrorView;

    open spec fn view(&self) -> CoverageErrorView {
        match self {
            CoverageError::Catalog(e) => CoverageErrorView::Catalog(e@),
            CoverageError::Scan(e) => CoverageErrorView::Scan(e@),
        }
    }
}

impl CoverageErrorView {
    /// The message of the error.
    pub open spec fn text(self) -> Seq<char> {
        match self {
            CoverageErrorView::Catalog(e) => "catalog error while computing coverage: "@ + e,
            CoverageErrorView::Scan(e) => "cannot enumerate privileged surface: "@ + e,
        }
    }
}

impl CoverageError {
    /// The message of the error.
    pub fn message(&self) -> (r: String)
        ensures
            r@ == self@.text(),
    {
        match self {
            CoverageError::Catalog(e) => text::join2("catalog error while computing coverage: ", e),
            CoverageError::Scan(e) => text::join2("cannot enumerate privileged surface: ", e),
        }
    }
}

/// The contents of what a scan returns.
pub open spec fn scan_view(r: Result<ScanOutcome, CoverageError>) -> Result<
    OutcomeView,
    CoverageErrorView,
> {
    match r {
        Ok(o) => Ok(o@),
        Err(e) => Err(e@),
    }
}

/// A source of live surface objects.
pub trait SurfaceScanner {
    /// The outcomes that a scan of `classes` may have: any, unless an implementor says
    /// otherwise.
    open spec fn may_scan(
        &self,
        classes: Seq<SurfaceClass>,
        r: Result<OutcomeView, CoverageErrorView>,
    ) -> bool {
        true
    }

    /// Enumerate the privileged surface, restricted to the requested `classes`.
    fn scan(&self, classes: &[SurfaceClass]) -> (r: Result<ScanOutcome, CoverageError>)
        ensures
            self.may_scan(classes@, scan_view(r)),
    ;
}

/// The objects whose class is requested.
pub open spec fn of_classes(objects: Seq<ObjectView>, classes: Seq<SurfaceClass>) -> Seq<ObjectView>
    decreases objects.len(),
{
    if objects.len() == 0 {
        seq![]
    } else {
        let before = of_classes(objects.drop_last(), classes);
        if classes.contains(objects.last().class) {
            before.push(objects.last())
        } else {
            before
        }
    }
}

/// Whether a class is requested.
pub fn has_class(classes: &[SurfaceClass], class: SurfaceClass) -> (r: bool)
    ensures
        r == classes@.contains(class),
{
    let mut i: usize = 0;
    while i < classes.len()
        invariant
            i <= classes@.len(),
            forall|j: int| 0 <= j < i ==> classes@[j] != class,
        decreases classes@.len() - i,
    {
        if classes[i] == class {
            proof {
                assert(classes@[i as int] == class);
            }
            return true;
        }
        i += 1;
    }
    false
}

/// An in-memory surface: returns its objects filtered by class.
#[derive(Debug, Clone)]
pub struct FakeSurface {
    /// The objects of the surface.
    pub objects: Vec<SurfaceObject>,
}

impl FakeSurface {
    /// Empty surface.
    pub fn new() -> (r: Self)
        ensures
            object_views(r.objects@) == Seq::<ObjectView>::empty(),
    {
        let r = FakeSurface { objects: Vec::new() };
        proof {
            assert(object_views(r.objects@) =~= Seq::<ObjectView>::empty());
        }
        r
    }

    /// Add an object to the surface.
    pub fn with(self, object: SurfaceObject) -> (r: Self)
        ensures
            object_views(r.objects@) == object_views(self.objects@).push(object@),
    {
        let mut objects = self.objects;
        let ghost was = object_views(objects@);
        let ghost o = object@;
        objects.push(object);
        proof {
            assert(object_views(objects@) =~= was.push(o));
        }
        FakeSurface { objects }
    }
}

impl SurfaceScanner for FakeSurface {
    open spec fn may_scan(
        &self,
        classes: Seq<SurfaceClass>,
        r: Result<OutcomeView, CoverageErrorView>,
    ) -> bool {
        r == Ok::<OutcomeView, CoverageErrorView>(
            OutcomeView {
                objects: of_classes(object_views(self.objects@), classes),
                degraded: seq![],
            },
        )
    }

    fn scan(&self, classes: &[SurfaceClass]) -> (r: Result<ScanOutcome, CoverageError>) {
        let ghost all = object_views(self.objects@);
        let mut out = ScanOutcome::default();
        let mut i: usize = 0;
        proof {
            assert(out@.objects =~= of_classes(all.take(0), classes@));
        }
        while i < self.objects.len()
            invariant
                all == object_views(self.objects@),
                i <= self.objects@.len(),
                out@.objects == of_classes(all.take(i as int), classes@),
                out@.degraded == Seq::<DegradedView>::empty(),
            decreases self.objects@.len() - i,
        {
            let ghost was = out@;
            let object = &self.objects[i];
            proof {
                assert(all.take(i + 1).drop_last() =~= all.take(i as int));
                assert(all.take(i + 1).last() == object@);
            }
            if has_class(classes, object.class) {
                out.objects.push(object.clone());
                proof {
                    assert(out@.objects =~= was.objects.push(object@));
                }
            }
            i += 1;
        }
        proof {
            assert(all.take(i as int) =~= all);
        }
        Ok(out)
    }
}

// ---------------------------------------------------------------------------
// What coverage is computed against
// ---------------------------------------------------------------------------

/// A resolved role instance: the concrete expansion of its permissions.
#[derive(Debug, Clone, PartialEq, Eq)]
pub struct ResolvedRole {
    /// Expanded sudo command strings.
    pub sudo: Vec<String>,
    /// Expanded group names.
    pub groups: Vec<String>,
    /// Expanded file grants.
    pub file_grants: Vec<ResolvedFileGrant>,
}

/// The contents of an expansion: of a role, or of a catalog permission.
#[verifier::ext_equal]
pub struct ExpansionView {
    /// The sudo command strings.
    pub sudo: Seq<Seq<char>>,
    /// The group names.
    pub groups: Seq<Seq<char>>,
    /// The file grants.
    pub file_grants: Seq<catalog::GrantView>,
}

impl View for ResolvedRole {
    type V = ExpansionView;

    open spec fn view(&self) -> ExpansionView {
        ExpansionView {
            sudo: text::views(self.sudo@),
            groups: text::views(self.groups@),
            file_grants: catalog::grant_views(self.file_grants@),
        }
    }
}

/// The contents of a list of roles.
pub open spec fn role_views(v: Seq<ResolvedRole>) -> Seq<ExpansionView> {
    v.map_values(|r: ResolvedRole| r@)
}

impl ResolvedRole {
    /// Construct from already-expanded sudo and group strings (no file grants).
    pub fn new(sudo: Vec<String>, groups: Vec<String>) -> (r: Self)
        ensures
            r@ == (ExpansionView {
                sudo: text::views(sudo@),
                groups: text::views(groups@),
                file_grants: seq![],
            }),
    {
        let r = ResolvedRole { sudo, groups, file_grants: Vec::new() };
        proof {
            assert(r@.file_grants =~= seq![]);
        }
        r
    }

    /// Construct from already-expanded sudo and group strings and file grants.
    pub fn with_file_grants(
        sudo: Vec<String>,
        groups: Vec<String>,
        file_grants: Vec<ResolvedFileGrant>,
    ) -> (r: Self)
        ensures
            r@ == (ExpansionView {
                sudo: text::views(sudo@),
                groups: text::views(groups@),
                file_grants: catalog::grant_views(file_grants@),
            }),
    {
        ResolvedRole { sudo, groups, file_grants }
    }
}

/// What one catalog permission resolves to. A parametrized permission keeps its
/// templates verbatim, with the placeholders in them.
#[derive(Debug, PartialEq, Eq)]
pub struct ResolvedPermission {
    /// The sudo command strings.
    pub sudo: Vec<String>,
    /// The group names.
    pub groups: Vec<String>,
    /// The file grants.
    pub file_grants: Vec<ResolvedFileGrant>,
}

impl View for ResolvedPermission {
    type V = ExpansionView;

    open spec fn view(&self) -> ExpansionView {
        ExpansionView {
            sudo: text::views(self.sudo@),
            groups: text::views(self.groups@),
            file_grants: catalog::grant_views(self.file_grants@),
        }
    }
}

/// One definition of the catalog, with what its permission resolves to, or why it does
/// not resolve.
#[derive(Debug, PartialEq, Eq)]
pub struct CatalogEntry {
    /// The permission id.
    pub id: String,
    /// What the permission resolves to.
    pub resolved: Result<ResolvedPermission, String>,
}

/// The contents of a [`CatalogEntry`].
#[verifier::ext_equal]
pub struct EntryView {
    /// The permission id.
    pub id: Seq<char>,
    /// What the permission resolves to.
    pub resolved: Result<ExpansionView, Seq<char>>,
}

impl View for CatalogEntry {
    type V = EntryView;

    open spec fn view(&self) -> EntryView {
        EntryView {
            id: self.id@,
            resolved: match self.resolved {
                Ok(p) => Ok(p@),
                Err(e) => Err(e@),
            },
        }
    }
}

/// The contents of a list of definitions.
pub open spec fn entry_views(v: Seq<CatalogEntry>) -> Seq<EntryView> {
    v.map_values(|e: CatalogEntry| e@)
}

/// The installed catalog, listed for one operating system. A permission that is defined
/// on several layers is listed once for each.
#[derive(Debug, PartialEq, Eq)]
pub enum CatalogListing {
    /// Every definition, with what it resolves to.
    Entries(Vec<CatalogEntry>),
    /// The catalog cannot be listed, with the error.
    Unreadable(String),
}

/// The operating system that coverage is computed for, by its catalog layers, the most
/// specific last.
#[derive(Debug, PartialEq, Eq)]
pub struct OsTarget {
    /// The names of the catalog layers.
    pub layers: Vec<String>,
}

/// Context for a coverage computation.
#[derive(Debug, Clone)]
pub struct CoverageCtx {
    /// When set, a parametrized command without a role instance covers nothing. Without
    /// it, the binary that such a command starts with counts as covered.
    pub strict: bool,
    /// The catalog version this coverage is computed against.
    pub catalog_version: Option<String>,
    /// Group names that a role binding grants.
    pub bound_grant_groups: Vec<String>,
}

impl Default for CoverageCtx {
    /// Not strict, without a version and without bound groups.
    fn default() -> (r: Self)
        ensures
            !r.strict,
            r.catalog_version is None,
            text::views(r.bound_grant_groups@) == Seq::<Seq<char>>::empty(),
    {
        let r = CoverageCtx {
            strict: false,
            catalog_version: None,
            bound_grant_groups: Vec::new(),
        };
        proof {
            assert(text::views(r.bound_grant_groups@) =~= Seq::<Seq<char>>::empty());
        }
        r
    }
}

/// Each object is looked at for itself, in order.
pub proof fn requested_objects_add_up(
    a: Seq<ObjectView>,
    b: Seq<ObjectView>,
    classes: Seq<SurfaceClass>,
)
    ensures
        of_classes(Seq::<ObjectView>::empty(), classes).len() == 0,
        of_classes(a + b, classes) == of_classes(a, classes) + of_classes(b, classes),
    decreases b.len(),
{
    if b.len() == 0 {
        assert(a + b =~= a);
        assert(of_classes(a, classes) + of_classes(b, classes) =~= of_classes(a, classes));
    } else {
        requested_objects_add_up(a, b.drop_last(), classes);
        assert((a + b).drop_last() =~= a + b.drop_last());
        assert((a + b).last() == b.last());
        assert(of_classes(a + b, classes) =~= of_classes(a, classes) + of_classes(b, classes));
    }
}

/// An object is scanned for where its class is requested.
pub proof fn one_requested_object(o: ObjectView, classes: Seq<SurfaceClass>)
    ensures
        classes.contains(o.class) ==> of_classes(seq![o], classes) == seq![o],
        !classes.contains(o.class) ==> of_classes(seq![o], classes).len() == 0,
{
    reveal_with_fuel(of_classes, 2);
    assert(seq![o].drop_last() =~= seq![]);
    assert(seq![o].last() == o);
    assert(Seq::<ObjectView>::empty().push(o) =~= seq![o]);
}

/// The tokens of the classes.
pub proof fn classes_have_their_tokens()
    ensures
        SurfaceClass::SudoBin.text() == "sudo_bin"@,
        SurfaceClass::Config.text() == "config"@,
        SurfaceClass::Unit.text() == "unit"@,
        SurfaceClass::Group.text() == "group"@,
        SurfaceClass::CapFile.text() == "capfile"@,
        SurfaceClass::Setuid.text() == "setuid"@,
{
}

/// The messages of the errors.
pub proof fn messages_of_coverage_errors(why: Seq<char>)
    ensures
        CoverageErrorView::Catalog(why).text() == "catalog error while computing coverage: "@ + why,
        CoverageErrorView::Scan(why).text() == "cannot enumerate privileged surface: "@ + why,
{
}

} // verus!
