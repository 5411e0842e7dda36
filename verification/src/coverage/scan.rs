//! The live surface: what the answers of the system amount to.
//!
//! Reading directories and running tools is left to the caller, which hands the answers
//! to a [`LiveSurface`]. Each class is gathered on its own; a tool that is there but
//! failed degrades its class, which is distinct from a class that is empty.

use vstd::hash_set::StringHashSet;
use vstd::prelude::*;

use crate::catalog;
use crate::coverage;
use crate::coverage::capture;
use crate::coverage::capture::CaptureOutcome;
use crate::coverage::parse;
use crate::coverage::parse::OwnerMap;
use crate::coverage::{
    CoverageError, Provenance, ScanDegraded, ScanOutcome, SurfaceClass, SurfaceObject,
};
use crate::inspect;
use crate::text;

verus! {

broadcast use vstd::string::group_string_axioms;

/// Virtual filesystem roots, below the scan root, that hold no binaries on disk.
pub const VIRTUAL_DIRS: [&'static str; 4] = ["proc", "sys", "run", "dev"];

/// The binary directories that are searched for capability-bearing files.
pub const CAPFILE_SCAN_DIRS: [&'static str; 8] = [
    "/usr/bin",
    "/usr/sbin",
    "/bin",
    "/sbin",
    "/usr/local/bin",
    "/usr/local/sbin",
    "/usr/lib",
    "/usr/libexec",
];

/// Drop-in directories whose presence implies a config surface.
pub const CONFIG_DROPIN_DIRS: [&'static str; 5] = [
    "/etc/sudoers.d",
    "/etc/sysctl.d",
    "/etc/ssh/sshd_config.d",
    "/etc/pam.d",
    "/etc/security/limits.d",
];

/// The directories that hold sudo-reachable admin binaries.
pub const SUDO_BIN_DIRS: [&'static str; 2] = ["/usr/sbin", "/sbin"];

/// How many paths one `dpkg -S` run is given, well under the limit on arguments.
pub const DPKG_SEARCH_CHUNK: usize = 256;

// ---------------------------------------------------------------------------
// Modes and virtual directories
// ---------------------------------------------------------------------------

/// Whether a mode has the setuid or setgid bit.
pub open spec fn setuid_mode(mode: u32) -> bool {
    mode & 0o6000 != 0
}

/// Whether a Unix mode has the setuid or setgid bit set.
pub fn is_setuid_mode(mode: u32) -> (r: bool)
    ensures
        r == setuid_mode(mode),
{
    mode & 0o6000 != 0
}

/// The detail of a mode.
pub open spec fn mode_text(mode: u32) -> Seq<char> {
    "mode "@ + text::octal4(mode as nat)
}

/// The detail of a path whose mode is known, else nothing.
pub open spec fn mode_detail_text(mode: Option<u32>) -> Seq<char> {
    match mode {
        Some(m) => mode_text(m),
        None => ""@,
    }
}

/// Render a `mode NNNN` detail. A path that could not be stat'd yields an empty one.
pub fn mode_detail(mode: Option<u32>) -> (r: String)
    ensures
        r@ == mode_detail_text(mode),
{
    match mode {
        Some(m) => text::join2("mode ", &text::octal4_string(m)),
        None => "".to_owned(),
    }
}

/// Whether `dir` is, or is under, a virtual filesystem root below `root`.
pub open spec fn virtual_dir(root: Seq<char>, dir: Seq<char>) -> bool {
    exists|i: int|
        0 <= i < VIRTUAL_DIRS@.len() && catalog::within(
            catalog::join_path(root, #[trigger] VIRTUAL_DIRS@[i]@),
            dir,
        )
}

/// Whether a path is (or is under) a virtual filesystem root relative to `root`.
pub fn is_virtual_dir(root: &str, dir: &str) -> (r: bool)
    ensures
        r == virtual_dir(root@, dir@),
{
    let mut i: usize = 0;
    while i < VIRTUAL_DIRS.len()
        invariant
            i <= VIRTUAL_DIRS@.len(),
            forall|j: int|
                0 <= j < i ==> !catalog::within(
                    catalog::join_path(root@, #[trigger] VIRTUAL_DIRS@[j]@),
                    dir@,
                ),
        decreases VIRTUAL_DIRS@.len() - i,
    {
        if catalog::path_within(&catalog::joined_path(root, VIRTUAL_DIRS[i]), dir) {
            proof {
                assert(catalog::within(
                    catalog::join_path(root@, VIRTUAL_DIRS@[i as int]@),
                    dir@,
                ));
            }
            return true;
        }
        i += 1;
    }
    false
}

// ---------------------------------------------------------------------------
// Lists of objects
// ---------------------------------------------------------------------------

/// An object that no package is known to own.
pub open spec fn plain_object(
    class: SurfaceClass,
    key: Seq<char>,
    detail: Seq<char>,
) -> coverage::ObjectView {
    coverage::ObjectView { class, key, provenance: coverage::ProvenanceView::Orphan, detail }
}

/// Objects of one class with one detail.
pub open spec fn plain_objects(
    class: SurfaceClass,
    keys: Seq<Seq<char>>,
    detail: Seq<char>,
) -> Seq<coverage::ObjectView> {
    keys.map_values(|k: Seq<char>| plain_object(class, k, detail))
}

/// Whether some object has this key.
pub open spec fn has_key(objects: Seq<coverage::ObjectView>, key: Seq<char>) -> bool
    decreases objects.len(),
{
    objects.len() > 0 && (has_key(objects.drop_last(), key) || objects.last().key == key)
}

/// The first object of each key, in order.
pub open spec fn first_of_key(objects: Seq<coverage::ObjectView>) -> Seq<coverage::ObjectView>
    decreases objects.len(),
{
    if objects.len() == 0 {
        seq![]
    } else {
        let before = first_of_key(objects.drop_last());
        if has_key(objects.drop_last(), objects.last().key) {
            before
        } else {
            before.push(objects.last())
        }
    }
}

/// Keep the first object of each key.
fn keep_first(objects: Vec<SurfaceObject>) -> (out: Vec<SurfaceObject>)
    ensures
        coverage::object_views(out@) == first_of_key(coverage::object_views(objects@)),
{
    let ghost all = coverage::object_views(objects@);
    let mut out: Vec<SurfaceObject> = Vec::new();
    let mut seen = StringHashSet::new();
    let mut i: usize = 0;
    proof {
        assert(coverage::object_views(out@) =~= first_of_key(all.take(0)));
    }
    while i < objects.len()
        invariant
            all == coverage::object_views(objects@),
            i <= objects@.len(),
            forall|k: Seq<char>| #[trigger]
                seen@.contains(k) <==> has_key(all.take(i as int), k),
            coverage::object_views(out@) == first_of_key(all.take(i as int)),
        decreases objects@.len() - i,
    {
        let object = &objects[i];
        let ghost was = coverage::object_views(out@);
        proof {
            assert(all.take(i + 1).drop_last() =~= all.take(i as int));
            assert(all.take(i + 1).last() == object@);
        }
        if seen.insert(object.key.clone()) {
            out.push(object.clone());
            proof {
                assert(coverage::object_views(out@) =~= was.push(object@));
            }
        }
        i += 1;
    }
    proof {
        assert(all.take(i as int) =~= all);
    }
    out
}

/// Append objects of one class with one detail.
fn push_plain(out: &mut Vec<SurfaceObject>, class: SurfaceClass, keys: &[String], detail: &str)
    ensures
        coverage::object_views(final(out)@) == coverage::object_views(old(out)@) + plain_objects(
            class,
            text::views(keys@),
            detail@,
        ),
{
    let ghost was = coverage::object_views(out@);
    let ghost all = plain_objects(class, text::views(keys@), detail@);
    let mut i: usize = 0;
    proof {
        assert(was + all.take(0) =~= was);
    }
    while i < keys.len()
        invariant
            all == plain_objects(class, text::views(keys@), detail@),
            i <= keys@.len(),
            coverage::object_views(out@) == was + all.take(i as int),
        decreases keys@.len() - i,
    {
        let ghost so_far = coverage::object_views(out@);
        let object = SurfaceObject {
            class,
            key: keys[i].clone(),
            provenance: Provenance::Orphan,
            detail: detail.to_owned(),
        };
        let ghost one = object@;
        out.push(object);
        proof {
            assert(one == all[i as int]);
            assert(coverage::object_views(out@) =~= so_far.push(one));
            assert(coverage::object_views(out@) =~= was + all.take(i + 1));
        }
        i += 1;
    }
    proof {
        assert(all.take(i as int) =~= all);
    }
}

// ---------------------------------------------------------------------------
// The classes
// ---------------------------------------------------------------------------

/// An entry of a directory of admin binaries.
#[derive(Debug, PartialEq, Eq)]
pub struct BinEntry {
    /// The literal path.
    pub path: String,
    /// The path with its symlinks resolved, where that succeeded.
    pub canonical: Option<String>,
    /// The mode, where the path could be stat'd.
    pub mode: Option<u32>,
}

/// The contents of a [`BinEntry`].
#[verifier::ext_equal]
pub struct BinView {
    /// The literal path.
    pub path: Seq<char>,
    /// The resolved path.
    pub canonical: Option<Seq<char>>,
    /// The mode.
    pub mode: Option<u32>,
}

impl View for BinEntry {
    type V = BinView;

    open spec fn view(&self) -> BinView {
        BinView {
            path: self.path@,
            canonical: inspect::opt_text(self.canonical),
            mode: self.mode,
        }
    }
}

/// The contents of a list of entries.
pub open spec fn bin_views(v: Seq<BinEntry>) -> Seq<BinView> {
    v.map_values(|e: BinEntry| e@)
}

/// The object of an admin binary, keyed on its resolved path, or on its literal path
/// where that could not be resolved.
pub open spec fn bin_object(e: BinView) -> coverage::ObjectView {
    plain_object(
        SurfaceClass::SudoBin,
        match e.canonical {
            Some(c) => c,
            None => e.path,
        },
        mode_detail_text(e.mode),
    )
}

/// The objects of a directory's entries, in order.
pub open spec fn bin_objects(entries: Seq<BinView>) -> Seq<coverage::ObjectView> {
    entries.map_values(|e: BinView| bin_object(e))
}

/// The objects of the directories that could be read, in order.
pub open spec fn listed_bins(listings: Seq<Option<Vec<BinEntry>>>) -> Seq<coverage::ObjectView>
    decreases listings.len(),
{
    if listings.len() == 0 {
        seq![]
    } else {
        let before = listed_bins(listings.drop_last());
        match listings.last() {
            Some(entries) => before + bin_objects(bin_views(entries@)),
            None => before,
        }
    }
}

/// Whether some directory could be read.
pub open spec fn some_listing(listings: Seq<Option<Vec<BinEntry>>>) -> bool
    decreases listings.len(),
{
    listings.len() > 0 && (some_listing(listings.drop_last()) || listings.last() is Some)
}

/// The sudo-reachable binaries. That none of the directories could be read is an error.
pub open spec fn sudo_bins(root: Seq<char>, listings: Seq<Option<Vec<BinEntry>>>) -> Result<
    Seq<coverage::ObjectView>,
    coverage::CoverageErrorView,
> {
    if listings.len() > 0 && !some_listing(listings) {
        Err(
            coverage::CoverageErrorView::Scan(
                "no admin binary directory could be read under "@ + root,
            ),
        )
    } else {
        Ok(first_of_key(listed_bins(listings)))
    }
}

/// The contents of a list of objects or of an error.
pub open spec fn objects_view(r: Result<Vec<SurfaceObject>, CoverageError>) -> Result<
    Seq<coverage::ObjectView>,
    coverage::CoverageErrorView,
> {
    match r {
        Ok(v) => Ok(coverage::object_views(v@)),
        Err(e) => Err(e@),
    }
}

/// The drop-in directories that exist, in order.
pub open spec fn present_dropins(present: Seq<Seq<char>>, n: nat) -> Seq<Seq<char>>
    decreases n,
{
    if n == 0 {
        seq![]
    } else {
        let before = present_dropins(present, (n - 1) as nat);
        let d = CONFIG_DROPIN_DIRS@[n - 1]@;
        if text::listed(present, d) {
            before.push(d)
        } else {
            before
        }
    }
}

/// The configs: the conffiles, where they could be listed, and the drop-in directories.
pub open spec fn configs(
    conffiles: capture::CaptureView,
    present: Seq<Seq<char>>,
) -> Seq<coverage::ObjectView> {
    let paths = match conffiles {
        capture::CaptureView::Output(s) => parse::conffiles(text::lines(s)),
        _ => seq![],
    };
    first_of_key(
        plain_objects(SurfaceClass::Config, paths, "conffile"@) + plain_objects(
            SurfaceClass::Config,
            present_dropins(present, CONFIG_DROPIN_DIRS@.len()),
            "drop-in dir"@,
        ),
    )
}

/// The degradation of a class, where its tool failed.
pub open spec fn degradation(class: SurfaceClass, outcome: capture::CaptureView) -> Option<
    coverage::DegradedView,
> {
    match outcome {
        capture::CaptureView::Degraded(reason) => Some(coverage::DegradedView { class, reason }),
        _ => None,
    }
}

/// The contents of an optional degradation.
pub open spec fn opt_degraded(d: Option<ScanDegraded>) -> Option<coverage::DegradedView> {
    match d {
        Some(d) => Some(d@),
        None => None,
    }
}

/// The units that could be listed.
pub open spec fn unit_objects(outcome: capture::CaptureView) -> Seq<coverage::ObjectView> {
    match outcome {
        capture::CaptureView::Output(s) => plain_objects(
            SurfaceClass::Unit,
            parse::units(text::lines(s)),
            "service"@,
        ),
        _ => seq![],
    }
}

/// The groups of a group database.
pub open spec fn group_objects(root: Seq<char>, read: Result<String, String>) -> Result<
    Seq<coverage::ObjectView>,
    coverage::CoverageErrorView,
> {
    match read {
        Ok(s) => Ok(
            plain_objects(SurfaceClass::Group, parse::group_names(text::lines(s@)), "group"@),
        ),
        Err(e) => Err(
            coverage::CoverageErrorView::Scan(
                "cannot read "@ + catalog::join_path(root, "etc/group"@) + ": "@ + e@,
            ),
        ),
    }
}

/// The object of a capability-bearing file.
pub open spec fn cap_object(p: (Seq<char>, Seq<char>)) -> coverage::ObjectView {
    plain_object(SurfaceClass::CapFile, p.0, p.1)
}

/// The capability-bearing files that could be listed. Nothing was searched where there
/// is no outcome.
pub open spec fn cap_objects(outcome: Option<capture::CaptureView>) -> Seq<coverage::ObjectView> {
    match outcome {
        Some(capture::CaptureView::Output(s)) => parse::capfiles(text::lines(s)).map_values(
            |p: (Seq<char>, Seq<char>)| cap_object(p),
        ),
        _ => seq![],
    }
}

/// The contents of an optional outcome.
pub open spec fn opt_capture(c: Option<CaptureOutcome>) -> Option<capture::CaptureView> {
    match c {
        Some(c) => Some(c@),
        None => None,
    }
}

/// The degradation of the capability class.
pub open spec fn cap_degradation(outcome: Option<capture::CaptureView>) -> Option<
    coverage::DegradedView,
> {
    match outcome {
        Some(c) => degradation(SurfaceClass::CapFile, c),
        None => None,
    }
}

/// A directory of the system, below the scan root.
pub open spec fn under_root(root: Seq<char>, dir: Seq<char>) -> Seq<char> {
    catalog::join_path(root, catalog::strip_root(dir))
}

/// The roots that the live scan reads.
#[derive(Debug, Clone, PartialEq, Eq)]
pub struct LiveSurface {
    /// Filesystem root to scan.
    pub root: String,
    /// Directories holding sudo-reachable admin binaries, below `root`.
    pub sudo_bin_dirs: Vec<String>,
}

impl LiveSurface {
    /// The production configuration: scan `/`, with the system admin directories.
    pub fn system() -> (r: Self)
        ensures
            r.root@ == "/"@,
            text::views(r.sudo_bin_dirs@) == text::str_views(SUDO_BIN_DIRS@),
    {
        LiveSurface { root: "/".to_owned(), sudo_bin_dirs: text::owned_words(&SUDO_BIN_DIRS) }
    }

    /// A directory of the system, below the scan root.
    pub fn full_path(&self, dir: &str) -> (r: String)
        ensures
            r@ == under_root(self.root@, dir@),
    {
        catalog::joined_path(&self.root, &catalog::without_root(dir))
    }

    /// The sudo-reachable binaries, from the listing of each admin directory, or nothing
    /// for one that could not be read.
    pub fn scan_sudo_bins(&self, listings: &[Option<Vec<BinEntry>>]) -> (r: Result<
        Vec<SurfaceObject>,
        CoverageError,
    >)
        ensures
            objects_view(r) == sudo_bins(self.root@, listings@),
    {
        let mut all: Vec<SurfaceObject> = Vec::new();
        let mut any_dir = false;
        let mut i: usize = 0;
        proof {
            assert(coverage::object_views(all@) =~= listed_bins(listings@.take(0)));
        }
        while i < listings.len()
            invariant
                i <= listings@.len(),
                any_dir == some_listing(listings@.take(i as int)),
                coverage::object_views(all@) == listed_bins(listings@.take(i as int)),
            decreases listings@.len() - i,
        {
            proof {
                assert(listings@.take(i + 1).drop_last() =~= listings@.take(i as int));
                assert(listings@.take(i + 1).last() == listings@[i as int]);
            }
            match &listings[i] {
                Some(entries) => {
                    any_dir = true;
                    push_bins(&mut all, entries.as_slice());
                },
                None => {},
            }
            i += 1;
        }
        proof {
            assert(listings@.take(i as int) =~= listings@);
        }
        if listings.len() > 0 && !any_dir {
            return Err(
                CoverageError::Scan(
                    text::join2("no admin binary directory could be read under ", &self.root),
                ),
            );
        }
        Ok(keep_first(all))
    }

    /// The configs, from the conffile listing and the drop-in directories that exist.
    pub fn scan_configs(&self, conffiles: &CaptureOutcome, present: &[String]) -> (r: (
        Vec<SurfaceObject>,
        Option<ScanDegraded>,
    ))
        ensures
            coverage::object_views(r.0@) == configs(conffiles@, text::views(present@)),
            opt_degraded(r.1) == degradation(SurfaceClass::Config, conffiles@),
    {
        let mut all: Vec<SurfaceObject> = Vec::new();
        let mut degraded: Option<ScanDegraded> = None;
        let ghost none = Seq::<coverage::ObjectView>::empty();
        proof {
            assert(coverage::object_views(all@) =~= none);
            assert(plain_objects(SurfaceClass::Config, seq![], "conffile"@) =~= none);
        }
        match conffiles {
            CaptureOutcome::Output(stdout) => {
                let paths = parse::parse_dpkg_conffiles(stdout);
                push_plain(&mut all, SurfaceClass::Config, paths.as_slice(), "conffile");
                proof {
                    let objs = plain_objects(
                        SurfaceClass::Config,
                        text::views(paths@),
                        "conffile"@,
                    );
                    assert(none + objs =~= objs);
                }
            },
            CaptureOutcome::Absent => {},
            CaptureOutcome::Degraded(reason) => {
                degraded =
                Some(ScanDegraded { class: SurfaceClass::Config, reason: reason.clone() });
            },
        }
        let mut dirs: Vec<String> = Vec::new();
        let mut i: usize = 0;
        proof {
            assert(text::views(dirs@) =~= present_dropins(text::views(present@), 0));
        }
        while i < CONFIG_DROPIN_DIRS.len()
            invariant
                i <= CONFIG_DROPIN_DIRS@.len(),
                text::views(dirs@) == present_dropins(text::views(present@), i as nat),
            decreases CONFIG_DROPIN_DIRS@.len() - i,
        {
            let ghost was = text::views(dirs@);
            let d = CONFIG_DROPIN_DIRS[i];
            if text::in_list(present, d) {
                dirs.push(d.to_owned());
                proof {
                    assert(text::views(dirs@) =~= was.push(d@));
                }
            }
            i += 1;
        }
        push_plain(&mut all, SurfaceClass::Config, dirs.as_slice(), "drop-in dir");
        (keep_first(all), degraded)
    }

    /// The service units.
    pub fn scan_units(&self, outcome: &CaptureOutcome) -> (r: (
        Vec<SurfaceObject>,
        Option<ScanDegraded>,
    ))
        ensures
            coverage::object_views(r.0@) == unit_objects(outcome@),
            opt_degraded(r.1) == degradation(SurfaceClass::Unit, outcome@),
    {
        let mut objects: Vec<SurfaceObject> = Vec::new();
        proof {
            assert(coverage::object_views(objects@) =~= seq![]);
        }
        match outcome {
            CaptureOutcome::Output(stdout) => {
                let names = parse::parse_systemctl_units(stdout);
                push_plain(&mut objects, SurfaceClass::Unit, names.as_slice(), "service");
                proof {
                    assert(coverage::object_views(objects@) =~= unit_objects(outcome@));
                }
                (objects, None)
            },
            CaptureOutcome::Absent => (objects, None),
            CaptureOutcome::Degraded(reason) => (
                objects,
                Some(ScanDegraded { class: SurfaceClass::Unit, reason: reason.clone() }),
            ),
        }
    }

    /// The groups, from the text of the group database. That it cannot be read is an
    /// error.
    pub fn scan_groups(&self, read: &Result<String, String>) -> (r: Result<
        Vec<SurfaceObject>,
        CoverageError,
    >)
        ensures
            objects_view(r) == group_objects(self.root@, *read),
    {
        match read {
            Ok(s) => {
                let names = parse::parse_etc_group(s);
                let mut objects: Vec<SurfaceObject> = Vec::new();
                proof {
                    assert(coverage::object_views(objects@) =~= seq![]);
                }
                push_plain(&mut objects, SurfaceClass::Group, names.as_slice(), "group");
                proof {
                    assert(coverage::object_views(objects@) =~= plain_objects(
                        SurfaceClass::Group,
                        text::views(names@),
                        "group"@,
                    ));
                }
                Ok(objects)
            },
            Err(e) => {
                let mut reason = text::join3(
                    "cannot read ",
                    &catalog::joined_path(&self.root, "etc/group"),
                    ": ",
                );
                reason.append(e);
                Err(CoverageError::Scan(reason))
            },
        }
    }

    /// The capability-bearing files, from the search of the binary directories that
    /// exist, or nothing where there are none.
    pub fn scan_capfiles(&self, outcome: &Option<CaptureOutcome>) -> (r: (
        Vec<SurfaceObject>,
        Option<ScanDegraded>,
    ))
        ensures
            coverage::object_views(r.0@) == cap_objects(opt_capture(*outcome)),
            opt_degraded(r.1) == cap_degradation(opt_capture(*outcome)),
    {
        let mut objects: Vec<SurfaceObject> = Vec::new();
        proof {
            assert(coverage::object_views(objects@) =~= seq![]);
        }
        match outcome {
            Some(CaptureOutcome::Output(stdout)) => {
                let pairs = parse::parse_getcap(stdout);
                let ghost all = cap_objects(opt_capture(*outcome));
                let mut i: usize = 0;
                while i < pairs.len()
                    invariant
                        parse::pair_views(pairs@) == parse::capfiles(text::lines(stdout@)),
                        all == parse::pair_views(pairs@).map_values(
                            |p: (Seq<char>, Seq<char>)| cap_object(p),
                        ),
                        i <= pairs@.len(),
                        coverage::object_views(objects@) == all.take(i as int),
                    decreases pairs@.len() - i,
                {
                    let ghost was = coverage::object_views(objects@);
                    let object = SurfaceObject {
                        class: SurfaceClass::CapFile,
                        key: pairs[i].0.clone(),
                        provenance: Provenance::Orphan,
                        detail: pairs[i].1.clone(),
                    };
                    let ghost one = object@;
                    objects.push(object);
                    proof {
                        assert(one == all[i as int]);
                        assert(coverage::object_views(objects@) =~= was.push(one));
                        assert(all.take(i + 1) =~= was.push(one));
                    }
                    i += 1;
                }
                proof {
                    assert(all.take(i as int) =~= all);
                }
                (objects, None)
            },
            Some(CaptureOutcome::Degraded(reason)) => (
                objects,
                Some(ScanDegraded { class: SurfaceClass::CapFile, reason: reason.clone() }),
            ),
            Some(CaptureOutcome::Absent) => (objects, None),
            None => (objects, None),
        }
    }
}

/// Append the objects of a directory's entries.
fn push_bins(out: &mut Vec<SurfaceObject>, entries: &[BinEntry])
    ensures
        coverage::object_views(final(out)@) == coverage::object_views(old(out)@) + bin_objects(
            bin_views(entries@),
        ),
{
    let ghost was = coverage::object_views(out@);
    let ghost all = bin_objects(bin_views(entries@));
    let mut i: usize = 0;
    proof {
        assert(was + all.take(0) =~= was);
    }
    while i < entries.len()
        invariant
            all == bin_objects(bin_views(entries@)),
            i <= entries@.len(),
            coverage::object_views(out@) == was + all.take(i as int),
        decreases entries@.len() - i,
    {
        let ghost so_far = coverage::object_views(out@);
        let entry = &entries[i];
        let key = match &entry.canonical {
            Some(c) => c.clone(),
            None => entry.path.clone(),
        };
        let object = SurfaceObject {
            class: SurfaceClass::SudoBin,
            key,
            provenance: Provenance::Orphan,
            detail: mode_detail(entry.mode),
        };
        let ghost one = object@;
        out.push(object);
        proof {
            assert(one == bin_object(entry@));
            assert(one == all[i as int]);
            assert(coverage::object_views(out@) =~= so_far.push(one));
            assert(coverage::object_views(out@) =~= was + all.take(i + 1));
        }
        i += 1;
    }
    proof {
        assert(all.take(i as int) =~= all);
    }
}

/// The arguments of the search for capability-bearing files in these directories.
pub open spec fn getcap_search(dirs: Seq<Seq<char>>) -> Option<Seq<Seq<char>>> {
    if dirs.len() == 0 {
        None
    } else {
        Some(seq!["-r"@] + dirs)
    }
}

/// The contents of an optional list of arguments.
pub open spec fn opt_args(a: Option<Vec<String>>) -> Option<Seq<Seq<char>>> {
    match a {
        Some(v) => Some(text::views(v@)),
        None => None,
    }
}

/// A word followed by a list of strings.
fn args_after(word: &str, rest: &[String]) -> (out: Vec<String>)
    ensures
        text::views(out@) == seq![word@] + text::views(rest@),
{
    let ghost all = text::views(rest@);
    let mut out: Vec<String> = Vec::new();
    out.push(word.to_owned());
    let mut i: usize = 0;
    proof {
        assert(text::views(out@) =~= seq![word@] + all.take(0));
    }
    while i < rest.len()
        invariant
            all == text::views(rest@),
            i <= rest@.len(),
            text::views(out@) == seq![word@] + all.take(i as int),
        decreases rest@.len() - i,
    {
        let ghost was = text::views(out@);
        out.push(rest[i].clone());
        proof {
            assert(text::views(out@) =~= was.push(rest@[i as int]@));
            assert(text::views(out@) =~= seq![word@] + all.take(i + 1));
        }
        i += 1;
    }
    proof {
        assert(all.take(i as int) =~= all);
    }
    out
}

/// The `getcap` arguments for the binary directories that exist, or nothing where there
/// are none: then there is nothing to search.
pub fn getcap_args(dirs: &[String]) -> (r: Option<Vec<String>>)
    ensures
        opt_args(r) == getcap_search(text::views(dirs@)),
{
    if dirs.len() == 0 {
        None
    } else {
        Some(args_after("-r", dirs))
    }
}

// ---------------------------------------------------------------------------
// Provenance
// ---------------------------------------------------------------------------

/// The keys that are absolute paths, in order.
pub open spec fn path_keys(objects: Seq<coverage::ObjectView>) -> Seq<Seq<char>>
    decreases objects.len(),
{
    if objects.len() == 0 {
        seq![]
    } else {
        let before = path_keys(objects.drop_last());
        if catalog::is_absolute(objects.last().key) {
            before.push(objects.last().key)
        } else {
            before
        }
    }
}

/// The arguments of the owner searches, a bounded number of paths in each.
pub open spec fn owner_searches(paths: Seq<Seq<char>>) -> Seq<Seq<Seq<char>>>
    decreases paths.len(),
{
    if paths.len() == 0 {
        seq![]
    } else if paths.len() <= DPKG_SEARCH_CHUNK {
        seq![seq!["-S"@] + paths]
    } else {
        seq![seq!["-S"@] + paths.take(DPKG_SEARCH_CHUNK as int)] + owner_searches(
            paths.skip(DPKG_SEARCH_CHUNK as int),
        )
    }
}

/// The contents of a list of argument lists.
pub open spec fn args_views(v: Seq<Vec<String>>) -> Seq<Seq<Seq<char>>> {
    v.map_values(|a: Vec<String>| text::views(a@))
}

/// The `dpkg` arguments that ask for the owners of the objects keyed on a path.
pub fn provenance_queries(objects: &[SurfaceObject]) -> (out: Vec<Vec<String>>)
    ensures
        args_views(out@) == owner_searches(path_keys(coverage::object_views(objects@))),
{
    let ghost all = coverage::object_views(objects@);
    let mut paths: Vec<String> = Vec::new();
    let mut i: usize = 0;
    proof {
        assert(text::views(paths@) =~= path_keys(all.take(0)));
    }
    while i < objects.len()
        invariant
            all == coverage::object_views(objects@),
            i <= objects@.len(),
            text::views(paths@) == path_keys(all.take(i as int)),
        decreases objects@.len() - i,
    {
        let ghost was = text::views(paths@);
        let key = &objects[i].key;
        proof {
            assert(all.take(i + 1).drop_last() =~= all.take(i as int));
            assert(all.take(i + 1).last().key == key@);
        }
        if catalog::path_is_absolute(key) {
            paths.push(key.clone());
            proof {
                assert(text::views(paths@) =~= was.push(key@));
            }
        }
        i += 1;
    }
    proof {
        assert(all.take(i as int) =~= all);
    }
    let ghost keys = text::views(paths@);
    let n = paths.len();
    let mut out: Vec<Vec<String>> = Vec::new();
    let mut start: usize = 0;
    proof {
        assert(keys.skip(0) =~= keys);
        assert(args_views(out@) + owner_searches(keys) =~= owner_searches(keys));
    }
    while start < n
        invariant
            keys == text::views(paths@),
            n == paths@.len(),
            start <= n,
            owner_searches(keys) == args_views(out@) + owner_searches(keys.skip(start as int)),
        decreases n - start,
    {
        let ghost was = args_views(out@);
        let ghost rest = keys.skip(start as int);
        let end: usize = if n - start <= DPKG_SEARCH_CHUNK {
            n
        } else {
            start + DPKG_SEARCH_CHUNK
        };
        let chunk = &paths.as_slice()[start..end];
        let args = args_after("-S", chunk);
        let ghost one = text::views(args@);
        out.push(args);
        proof {
            assert(args_views(out@) =~= was.push(one));
            assert(text::views(chunk@) =~= rest.take(end - start));
            if end == n {
                assert(rest.take(end - start) =~= rest);
                assert(keys.skip(end as int) =~= Seq::<Seq<char>>::empty());
            } else {
                assert(rest.skip(DPKG_SEARCH_CHUNK as int) =~= keys.skip(end as int));
            }
            assert(was + (seq![one] + owner_searches(keys.skip(end as int))) =~= args_views(out@)
                + owner_searches(keys.skip(end as int)));
            assert(owner_searches(rest) =~= seq![one] + owner_searches(keys.skip(end as int)));
        }
        start = end;
    }
    proof {
        assert(keys.skip(start as int) =~= Seq::<Seq<char>>::empty());
        assert(args_views(out@) + owner_searches(keys.skip(start as int)) =~= args_views(out@));
    }
    out
}

/// The contents of a list of outcomes.
pub open spec fn capture_views(v: Seq<CaptureOutcome>) -> Seq<capture::CaptureView> {
    v.map_values(|c: CaptureOutcome| c@)
}

/// The owners that the searches found. A search that failed adds none.
pub open spec fn owners_in(answers: Seq<capture::CaptureView>) -> Map<Seq<char>, Seq<char>>
    decreases answers.len(),
{
    if answers.len() == 0 {
        Map::empty()
    } else {
        let before = owners_in(answers.drop_last());
        match answers.last() {
            capture::CaptureView::Output(s) => parse::merged(
                before,
                parse::owned_paths(text::lines(s)),
            ),
            _ => before,
        }
    }
}

/// An object with the provenance that its owner gives it, where it has one.
pub open spec fn with_owner(
    o: coverage::ObjectView,
    owners: Map<Seq<char>, Seq<char>>,
) -> coverage::ObjectView {
    if owners.contains_key(o.key) {
        coverage::ObjectView { provenance: parse::provenance_of(owners[o.key]), ..o }
    } else {
        o
    }
}

/// The objects with the provenance that their owners give them.
pub open spec fn with_owners(
    objects: Seq<coverage::ObjectView>,
    owners: Map<Seq<char>, Seq<char>>,
) -> Seq<coverage::ObjectView> {
    objects.map_values(|o: coverage::ObjectView| with_owner(o, owners))
}

/// Mark the objects that a package owns with their provenance, from the answers to the
/// owner searches. The rest keep theirs.
pub fn resolve_provenance(objects: &[SurfaceObject], answers: &[CaptureOutcome]) -> (out: Vec<
    SurfaceObject,
>)
    ensures
        coverage::object_views(out@) == with_owners(
            coverage::object_views(objects@),
            owners_in(capture_views(answers@)),
        ),
{
    let ghost replies = capture_views(answers@);
    let mut owners = OwnerMap::new();
    let mut i: usize = 0;
    while i < answers.len()
        invariant
            replies == capture_views(answers@),
            i <= answers@.len(),
            owners@ == owners_in(replies.take(i as int)),
        decreases answers@.len() - i,
    {
        proof {
            assert(replies.take(i + 1).drop_last() =~= replies.take(i as int));
            assert(replies.take(i + 1).last() == answers@[i as int]@);
        }
        match &answers[i] {
            CaptureOutcome::Output(stdout) => {
                parse::merge_dpkg_owners(&mut owners, parse::parse_dpkg_search(stdout));
            },
            CaptureOutcome::Absent => {},
            CaptureOutcome::Degraded(_) => {},
        }
        i += 1;
    }
    proof {
        assert(replies.take(i as int) =~= replies);
    }
    let ghost all = with_owners(coverage::object_views(objects@), owners@);
    let mut out: Vec<SurfaceObject> = Vec::new();
    let mut k: usize = 0;
    proof {
        assert(coverage::object_views(out@) =~= all.take(0));
    }
    while k < objects.len()
        invariant
            all == with_owners(coverage::object_views(objects@), owners@),
            k <= objects@.len(),
            coverage::object_views(out@) == all.take(k as int),
        decreases objects@.len() - k,
    {
        let ghost was = coverage::object_views(out@);
        let o = &objects[k];
        let provenance = match owners.get(&o.key) {
            Some(pkg) => parse::classify_owner(pkg),
            None => o.provenance.clone(),
        };
        let object = SurfaceObject {
            class: o.class,
            key: o.key.clone(),
            provenance,
            detail: o.detail.clone(),
        };
        let ghost one = object@;
        out.push(object);
        proof {
            assert(one == with_owner(o@, owners@));
            assert(one == all[k as int]);
            assert(coverage::object_views(out@) =~= was.push(one));
            assert(all.take(k + 1) =~= was.push(one));
        }
        k += 1;
    }
    proof {
        assert(all.take(k as int) =~= all);
    }
    out
}

// ---------------------------------------------------------------------------
// The whole scan
// ---------------------------------------------------------------------------

/// The answers of the system, for the classes that are requested. What is not requested
/// is not looked at.
#[derive(Debug, PartialEq, Eq)]
pub struct ScanInputs {
    /// The listing of each admin directory, or nothing for one that could not be read.
    pub sudo_bins: Vec<Option<Vec<BinEntry>>>,
    /// The conffile listing.
    pub conffiles: CaptureOutcome,
    /// The drop-in directories that exist.
    pub dropins: Vec<String>,
    /// The unit listing.
    pub units: CaptureOutcome,
    /// The text of the group database, or why it could not be read.
    pub groups: Result<String, String>,
    /// The search for capability-bearing files, or nothing where there is no directory
    /// to search.
    pub capfiles: Option<CaptureOutcome>,
    /// What the setuid walk found, or why it could not start.
    pub setuid: Result<Vec<SurfaceObject>, CoverageError>,
}

/// A list with an item at its end, where there is one.
pub open spec fn with_degraded(
    list: Seq<coverage::DegradedView>,
    item: Option<coverage::DegradedView>,
) -> Seq<coverage::DegradedView> {
    match item {
        Some(d) => list.push(d),
        None => list,
    }
}

/// The objects of one class, where it is requested.
pub open spec fn if_asked(
    classes: Seq<SurfaceClass>,
    class: SurfaceClass,
    objects: Seq<coverage::ObjectView>,
) -> Seq<coverage::ObjectView> {
    if classes.contains(class) {
        objects
    } else {
        seq![]
    }
}

/// The degradation of one class, where it is requested.
pub open spec fn degraded_if_asked(
    classes: Seq<SurfaceClass>,
    class: SurfaceClass,
    d: Option<coverage::DegradedView>,
) -> Option<coverage::DegradedView> {
    if classes.contains(class) {
        d
    } else {
        None
    }
}

/// The first of the errors that end a scan of these classes.
pub open spec fn scan_error(root: Seq<char>, classes: Seq<SurfaceClass>, inputs: ScanInputs) -> Option<
    coverage::CoverageErrorView,
> {
    if classes.contains(SurfaceClass::SudoBin) && sudo_bins(root, inputs.sudo_bins@) is Err {
        Some(sudo_bins(root, inputs.sudo_bins@)->Err_0)
    } else if classes.contains(SurfaceClass::Group) && group_objects(
        root,
        inputs.groups,
    ) is Err {
        Some(group_objects(root, inputs.groups)->Err_0)
    } else if classes.contains(SurfaceClass::Setuid) && objects_view(inputs.setuid) is Err {
        Some(objects_view(inputs.setuid)->Err_0)
    } else {
        None
    }
}

/// The objects of the requested classes, class by class.
pub open spec fn scan_objects(
    root: Seq<char>,
    classes: Seq<SurfaceClass>,
    inputs: ScanInputs,
) -> Seq<coverage::ObjectView> {
    if_asked(classes, SurfaceClass::SudoBin, sudo_bins(root, inputs.sudo_bins@)->Ok_0) + if_asked(
        classes,
        SurfaceClass::Config,
        configs(inputs.conffiles@, text::views(inputs.dropins@)),
    ) + if_asked(classes, SurfaceClass::Unit, unit_objects(inputs.units@)) + if_asked(
        classes,
        SurfaceClass::Group,
        group_objects(root, inputs.groups)->Ok_0,
    ) + if_asked(classes, SurfaceClass::CapFile, cap_objects(opt_capture(inputs.capfiles)))
        + if_asked(classes, SurfaceClass::Setuid, objects_view(inputs.setuid)->Ok_0)
}

/// The degradations of the requested classes.
pub open spec fn scan_degradations(
    classes: Seq<SurfaceClass>,
    inputs: ScanInputs,
) -> Seq<coverage::DegradedView> {
    with_degraded(
        with_degraded(
            with_degraded(
                seq![],
                degraded_if_asked(
                    classes,
                    SurfaceClass::Config,
                    degradation(SurfaceClass::Config, inputs.conffiles@),
                ),
            ),
            degraded_if_asked(
                classes,
                SurfaceClass::Unit,
                degradation(SurfaceClass::Unit, inputs.units@),
            ),
        ),
        degraded_if_asked(
            classes,
            SurfaceClass::CapFile,
            cap_degradation(opt_capture(inputs.capfiles)),
        ),
    )
}

/// Append the objects of one class.
fn extend(out: &mut Vec<SurfaceObject>, more: Vec<SurfaceObject>)
    ensures
        coverage::object_views(final(out)@) == coverage::object_views(old(out)@)
            + coverage::object_views(more@),
{
    let ghost was = coverage::object_views(out@);
    let ghost all = coverage::object_views(more@);
    let mut i: usize = 0;
    proof {
        assert(was + all.take(0) =~= was);
    }
    while i < more.len()
        invariant
            all == coverage::object_views(more@),
            i <= more@.len(),
            coverage::object_views(out@) == was + all.take(i as int),
        decreases more@.len() - i,
    {
        let ghost so_far = coverage::object_views(out@);
        out.push(more[i].clone());
        proof {
            assert(coverage::object_views(out@) =~= so_far.push(all[i as int]));
            assert(coverage::object_views(out@) =~= was + all.take(i + 1));
        }
        i += 1;
    }
    proof {
        assert(all.take(i as int) =~= all);
    }
}

/// Append a degradation, where there is one.
fn push_degraded(out: &mut Vec<ScanDegraded>, d: Option<ScanDegraded>)
    ensures
        coverage::degraded_views(final(out)@) == with_degraded(
            coverage::degraded_views(old(out)@),
            opt_degraded(d),
        ),
{
    let ghost was = coverage::degraded_views(out@);
    match d {
        Some(d) => {
            let ghost one = d@;
            out.push(d);
            proof {
                assert(coverage::degraded_views(out@) =~= was.push(one));
            }
        },
        None => {},
    }
}

impl LiveSurface {
    /// Gather the requested classes from the answers of the system. Who owns the objects
    /// is asked afterwards (see [`provenance_queries`]).
    pub fn gather(&self, classes: &[SurfaceClass], inputs: ScanInputs) -> (r: Result<
        ScanOutcome,
        CoverageError,
    >)
        ensures
            match scan_error(self.root@, classes@, inputs) {
                Some(e) => r is Err && r->Err_0@ == e,
                None => r is Ok && r->Ok_0@ == (coverage::OutcomeView {
                    objects: scan_objects(self.root@, classes@, inputs),
                    degraded: scan_degradations(classes@, inputs),
                }),
            },
    {
        let mut objects: Vec<SurfaceObject> = Vec::new();
        let mut degraded: Vec<ScanDegraded> = Vec::new();
        let ghost none = Seq::<coverage::ObjectView>::empty();
        proof {
            assert(coverage::object_views(objects@) =~= none);
            assert(coverage::degraded_views(degraded@) =~= seq![]);
        }
        let ghost bins = if_asked(
            classes@,
            SurfaceClass::SudoBin,
            sudo_bins(self.root@, inputs.sudo_bins@)->Ok_0,
        );
        if coverage::has_class(classes, SurfaceClass::SudoBin) {
            match self.scan_sudo_bins(inputs.sudo_bins.as_slice()) {
                Ok(found) => extend(&mut objects, found),
                Err(e) => {
                    return Err(e);
                },
            }
        }
        proof {
            assert(coverage::object_views(objects@) =~= bins);
        }
        let ghost with_configs = bins + if_asked(
            classes@,
            SurfaceClass::Config,
            configs(inputs.conffiles@, text::views(inputs.dropins@)),
        );
        if coverage::has_class(classes, SurfaceClass::Config) {
            let (found, d) = self.scan_configs(&inputs.conffiles, inputs.dropins.as_slice());
            extend(&mut objects, found);
            push_degraded(&mut degraded, d);
        }
        proof {
            assert(coverage::object_views(objects@) =~= with_configs);
        }
        let ghost with_units = with_configs + if_asked(
            classes@,
            SurfaceClass::Unit,
            unit_objects(inputs.units@),
        );
        if coverage::has_class(classes, SurfaceClass::Unit) {
            let (found, d) = self.scan_units(&inputs.units);
            extend(&mut objects, found);
            push_degraded(&mut degraded, d);
        }
        proof {
            assert(coverage::object_views(objects@) =~= with_units);
        }
        let ghost with_groups = with_units + if_asked(
            classes@,
            SurfaceClass::Group,
            group_objects(self.root@, inputs.groups)->Ok_0,
        );
        if coverage::has_class(classes, SurfaceClass::Group) {
            match self.scan_groups(&inputs.groups) {
                Ok(found) => extend(&mut objects, found),
                Err(e) => {
                    return Err(e);
                },
            }
        }
        proof {
            assert(coverage::object_views(objects@) =~= with_groups);
        }
        let ghost with_caps = with_groups + if_asked(
            classes@,
            SurfaceClass::CapFile,
            cap_objects(opt_capture(inputs.capfiles)),
        );
        if coverage::has_class(classes, SurfaceClass::CapFile) {
            let (found, d) = self.scan_capfiles(&inputs.capfiles);
            extend(&mut objects, found);
            push_degraded(&mut degraded, d);
        }
        proof {
            assert(coverage::object_views(objects@) =~= with_caps);
        }
        if coverage::has_class(classes, SurfaceClass::Setuid) {
            match inputs.setuid {
                Ok(found) => extend(&mut objects, found),
                Err(e) => {
                    return Err(e);
                },
            }
        }
        proof {
            assert(coverage::object_views(objects@) =~= scan_objects(
                self.root@,
                classes@,
                inputs,
            ));
        }
        Ok(ScanOutcome { objects, degraded })
    }
}

// ---------------------------------------------------------------------------
// Laws
// ---------------------------------------------------------------------------

/// The arguments behind the first of each search, one after the other.
pub open spec fn searched(searches: Seq<Seq<Seq<char>>>) -> Seq<Seq<char>>
    decreases searches.len(),
{
    if searches.len() == 0 {
        seq![]
    } else {
        searches[0].skip(1) + searched(searches.skip(1))
    }
}

/// The searches for owners ask for every path once, in order, and none of them for more
/// than fits in one.
pub proof fn searches_ask_for_every_path(paths: Seq<Seq<char>>)
    ensures
        searched(owner_searches(paths)) == paths,
        forall|k: int|
            0 <= k < owner_searches(paths).len() ==> (#[trigger] owner_searches(paths)[k]).len()
                <= DPKG_SEARCH_CHUNK + 1,
    decreases paths.len(),
{
    if paths.len() == 0 {
        assert(searched(owner_searches(paths)) =~= paths);
    } else if paths.len() <= DPKG_SEARCH_CHUNK {
        let all = owner_searches(paths);
        assert(all[0].skip(1) =~= paths);
        assert(all.skip(1) =~= Seq::<Seq<Seq<char>>>::empty());
        assert(searched(all.skip(1)) =~= Seq::<Seq<char>>::empty());
        assert(searched(all) =~= paths);
    } else {
        let n = DPKG_SEARCH_CHUNK as int;
        let rest = owner_searches(paths.skip(n));
        let all = owner_searches(paths);
        searches_ask_for_every_path(paths.skip(n));
        assert(all[0].skip(1) =~= paths.take(n));
        assert(all.skip(1) =~= rest);
        assert(searched(all) =~= paths);
        assert forall|k: int| 0 <= k < all.len() implies (#[trigger] all[k]).len()
            <= DPKG_SEARCH_CHUNK + 1 by {
            if k > 0 {
                assert(all[k] == rest[k - 1]);
            }
        }
    }
}

/// A tool that is there and fails never passes for an empty class: the class is degraded.
/// One that is not installed leaves its class empty without a word.
pub proof fn failures_are_never_silent(class: SurfaceClass, outcome: capture::CaptureView)
    ensures
        degradation(class, outcome) is Some <==> outcome is Degraded,
        !(outcome is Output) ==> unit_objects(outcome).len() == 0,
{
}

/// What is kept of a list of objects is on distinct keys.
proof fn lemma_kept_keys(objects: Seq<coverage::ObjectView>, key: Seq<char>)
    ensures
        has_key(first_of_key(objects), key) == has_key(objects, key),
    decreases objects.len(),
{
    if objects.len() > 0 {
        lemma_kept_keys(objects.drop_last(), key);
        lemma_kept_keys(objects.drop_last(), objects.last().key);
        let before = first_of_key(objects.drop_last());
        if !has_key(objects.drop_last(), objects.last().key) {
            assert(first_of_key(objects).drop_last() =~= before);
        }
    }
}

/// A key is not there where no object has it.
proof fn lemma_no_key(objects: Seq<coverage::ObjectView>, i: int)
    requires
        0 <= i < objects.len(),
    ensures
        has_key(objects, objects[i].key),
    decreases objects.len(),
{
    if i < objects.len() - 1 {
        assert(objects.drop_last()[i] == objects[i]);
        lemma_no_key(objects.drop_last(), i);
    }
}

/// No object is listed under one key twice.
pub proof fn keys_are_distinct(objects: Seq<coverage::ObjectView>)
    ensures
        forall|i: int, j: int|
            0 <= i < j < first_of_key(objects).len() ==> (#[trigger] first_of_key(objects)[i]).key
                != (#[trigger] first_of_key(objects)[j]).key,
    decreases objects.len(),
{
    if objects.len() > 0 {
        keys_are_distinct(objects.drop_last());
        let before = first_of_key(objects.drop_last());
        let now = first_of_key(objects);
        let last = objects.last();
        lemma_kept_keys(objects.drop_last(), last.key);
        assert forall|i: int, j: int| 0 <= i < j < now.len() implies (#[trigger] now[i]).key != (
        #[trigger] now[j]).key by {
            assert(now[i] == before[i]);
            lemma_no_key(before, i);
            if j < before.len() {
                assert(now[j] == before[j]);
            }
        }
    }
}

/// Where capability-bearing files are searched.
pub proof fn directories_of_capability_files()
    ensures
        text::str_views(CAPFILE_SCAN_DIRS@) == seq![
            "/usr/bin"@,
            "/usr/sbin"@,
            "/bin"@,
            "/sbin"@,
            "/usr/local/bin"@,
            "/usr/local/sbin"@,
            "/usr/lib"@,
            "/usr/libexec"@,
        ],
{
    let t = text::str_views(CAPFILE_SCAN_DIRS@);
    assert(t[0] == "/usr/bin"@);
    assert(t[1] == "/usr/sbin"@);
    assert(t[2] == "/bin"@);
    assert(t[3] == "/sbin"@);
    assert(t[4] == "/usr/local/bin"@);
    assert(t[5] == "/usr/local/sbin"@);
    assert(t[6] == "/usr/lib"@);
    assert(t[7] == "/usr/libexec"@);
    assert(t.len() == 8);
}

/// The drop-in directories.
pub proof fn directories_of_drop_ins()
    ensures
        text::str_views(CONFIG_DROPIN_DIRS@) == seq![
            "/etc/sudoers.d"@,
            "/etc/sysctl.d"@,
            "/etc/ssh/sshd_config.d"@,
            "/etc/pam.d"@,
            "/etc/security/limits.d"@,
        ],
{
    let t = text::str_views(CONFIG_DROPIN_DIRS@);
    assert(t[0] == "/etc/sudoers.d"@);
    assert(t[1] == "/etc/sysctl.d"@);
    assert(t[2] == "/etc/ssh/sshd_config.d"@);
    assert(t[3] == "/etc/pam.d"@);
    assert(t[4] == "/etc/security/limits.d"@);
    assert(t.len() == 5);
}

/// Where admin binaries are listed.
pub proof fn directories_of_admin_binaries()
    ensures
        text::str_views(SUDO_BIN_DIRS@) == seq![
            "/usr/sbin"@,
            "/sbin"@,
        ],
{
    let t = text::str_views(SUDO_BIN_DIRS@);
    assert(t[0] == "/usr/sbin"@);
    assert(t[1] == "/sbin"@);
    assert(t.len() == 2);
}

/// A mode elevates where it has the setuid bit or the setgid bit. Its detail is its last four
/// octal digits, and empty where it is not known.
pub proof fn modes_that_elevate(mode: u32)
    ensures
        setuid_mode(mode) <==> mode & 0o4000 != 0 || mode & 0o2000 != 0,
        mode_text(mode) == "mode "@ + text::octal4(mode as nat),
        mode_detail_text(Some(mode)) == mode_text(mode),
        mode_detail_text(None).len() == 0,
{
    reveal_strlit("");
    assert((mode & 3072 != 0) == (mode & 2048 != 0 || mode & 1024 != 0)) by (bit_vector);
}

/// The virtual directories: each of these below the root, with all that is in it.
pub proof fn virtual_directories(root: Seq<char>, dir: Seq<char>)
    ensures
        virtual_dir(root, dir) <==> {
            ||| catalog::within(catalog::join_path(root, "proc"@), dir)
            ||| catalog::within(catalog::join_path(root, "sys"@), dir)
            ||| catalog::within(catalog::join_path(root, "run"@), dir)
            ||| catalog::within(catalog::join_path(root, "dev"@), dir)
        },
{
    assert(VIRTUAL_DIRS@[0]@ == "proc"@);
    assert(VIRTUAL_DIRS@[1]@ == "sys"@);
    assert(VIRTUAL_DIRS@[2]@ == "run"@);
    assert(VIRTUAL_DIRS@[3]@ == "dev"@);
    assert(VIRTUAL_DIRS@.len() == 4);
}

/// Objects as they are found: of the class, under the key and with the detail that they are
/// found by, and of no package until one is known.
pub proof fn objects_as_they_are_found(
    class: SurfaceClass,
    keys: Seq<Seq<char>>,
    detail: Seq<char>,
    i: int,
)
    requires
        0 <= i < keys.len(),
    ensures
        plain_objects(class, keys, detail).len() == keys.len(),
        plain_objects(class, keys, detail)[i].class == class,
        plain_objects(class, keys, detail)[i].key == keys[i],
        plain_objects(class, keys, detail)[i].detail == detail,
        plain_objects(class, keys, detail)[i].provenance is Orphan,
{
}

/// A key is there where some object has it.
proof fn lemma_has_key(objects: Seq<coverage::ObjectView>, key: Seq<char>)
    ensures
        has_key(objects, key) <==> exists|i: int|
            0 <= i < objects.len() && (#[trigger] objects[i]).key == key,
    decreases objects.len(),
{
    if objects.len() > 0 {
        let before = objects.drop_last();
        lemma_has_key(before, key);
        if has_key(before, key) {
            let i = choose|i: int| 0 <= i < before.len() && (#[trigger] before[i]).key == key;
            assert(objects[i] == before[i]);
        }
        if exists|i: int| 0 <= i < objects.len() && (#[trigger] objects[i]).key == key {
            let i = choose|i: int| 0 <= i < objects.len() && (#[trigger] objects[i]).key == key;
            if i < before.len() {
                assert(before[i] == objects[i]);
            }
        }
        assert(objects[objects.len() - 1] == objects.last());
    }
}

/// One object more: it is kept, at the end, where no object before it has its key.
pub proof fn the_first_object_of_a_key_is_kept(
    objects: Seq<coverage::ObjectView>,
    o: coverage::ObjectView,
)
    ensures
        first_of_key(Seq::<coverage::ObjectView>::empty()).len() == 0,
        (exists|i: int| 0 <= i < objects.len() && (#[trigger] objects[i]).key == o.key)
            ==> first_of_key(objects.push(o)) == first_of_key(objects),
        (forall|i: int| 0 <= i < objects.len() ==> (#[trigger] objects[i]).key != o.key)
            ==> first_of_key(objects.push(o)) == first_of_key(objects).push(o),
{
    assert(objects.push(o).drop_last() =~= objects);
    assert(objects.push(o).last() == o);
    lemma_has_key(objects, o.key);
}

/// An admin binary is known by its resolved path, or by its own where it has none.
pub proof fn binaries_are_known_by_their_resolved_path(e: BinView)
    ensures
        bin_object(e).class is SudoBin,
        bin_object(e).provenance is Orphan,
        bin_object(e).detail == mode_detail_text(e.mode),
        e.canonical matches Some(c) ==> bin_object(e).key == c,
        e.canonical is None ==> bin_object(e).key == e.path,
{
}

/// The listings are read one after the other.
pub proof fn listings_add_up(a: Seq<Option<Vec<BinEntry>>>, b: Seq<Option<Vec<BinEntry>>>)
    ensures
        listed_bins(Seq::<Option<Vec<BinEntry>>>::empty()).len() == 0,
        listed_bins(a + b) == listed_bins(a) + listed_bins(b),
    decreases b.len(),
{
    if b.len() == 0 {
        assert(a + b =~= a);
        assert(listed_bins(a) + listed_bins(b) =~= listed_bins(a));
    } else {
        listings_add_up(a, b.drop_last());
        assert((a + b).drop_last() =~= a + b.drop_last());
        assert((a + b).last() == b.last());
        assert(listed_bins(a + b) =~= listed_bins(a) + listed_bins(b));
    }
}

/// One listing: its binaries, in order, where it could be read.
pub proof fn one_listing(entries: Vec<BinEntry>)
    ensures
        listed_bins(seq![None::<Vec<BinEntry>>]).len() == 0,
        listed_bins(seq![Some(entries)]).len() == entries@.len(),
        forall|i: int|
            0 <= i < entries@.len() ==> (#[trigger] listed_bins(seq![Some(entries)])[i])
                == bin_object(entries@[i]@),
{
    reveal_with_fuel(listed_bins, 2);
    let none = seq![None::<Vec<BinEntry>>];
    let one = seq![Some(entries)];
    assert(none.drop_last() =~= seq![]);
    assert(one.drop_last() =~= seq![]);
    assert(none.last() is None);
    assert(one.last() == Some(entries));
}

/// That no admin directory could be read is an error, where there was one to read; else the
/// binaries are those of the directories that could be, each key once.
pub proof fn some_directory_must_be_read(root: Seq<char>, listings: Seq<Option<Vec<BinEntry>>>)
    ensures
        sudo_bins(root, listings) is Err <==> listings.len() > 0 && forall|i: int|
            0 <= i < listings.len() ==> (#[trigger] listings[i]) is None,
        sudo_bins(root, listings) matches Err(e) ==> e == coverage::CoverageErrorView::Scan(
            "no admin binary directory could be read under "@ + root,
        ),
        sudo_bins(root, listings) matches Ok(objects) ==> objects == first_of_key(
            listed_bins(listings),
        ),
{
    lemma_some_listing(listings);
}

/// Some directory could be read.
proof fn lemma_some_listing(listings: Seq<Option<Vec<BinEntry>>>)
    ensures
        some_listing(listings) <==> exists|i: int|
            0 <= i < listings.len() && (#[trigger] listings[i]) is Some,
    decreases listings.len(),
{
    if listings.len() > 0 {
        let before = listings.drop_last();
        lemma_some_listing(before);
        if some_listing(before) {
            let i = choose|i: int| 0 <= i < before.len() && (#[trigger] before[i]) is Some;
            assert(listings[i] == before[i]);
        }
        if exists|i: int| 0 <= i < listings.len() && (#[trigger] listings[i]) is Some {
            let i = choose|i: int| 0 <= i < listings.len() && (#[trigger] listings[i]) is Some;
            if i < before.len() {
                assert(before[i] == listings[i]);
            }
        }
        assert(listings[listings.len() - 1] == listings.last());
    }
}

/// The drop-in directories are looked at one after the other: each is there where it is
/// present.
pub proof fn drop_ins_that_are_present(present: Seq<Seq<char>>, n: nat)
    requires
        n < CONFIG_DROPIN_DIRS@.len(),
    ensures
        present_dropins(present, 0).len() == 0,
        present.contains(text::str_views(CONFIG_DROPIN_DIRS@)[n as int]) ==> present_dropins(
            present,
            n + 1,
        ) == present_dropins(present, n).push(text::str_views(CONFIG_DROPIN_DIRS@)[n as int]),
        !present.contains(text::str_views(CONFIG_DROPIN_DIRS@)[n as int]) ==> present_dropins(
            present,
            n + 1,
        ) == present_dropins(present, n),
{
    text::listed_is_contained(present, text::str_views(CONFIG_DROPIN_DIRS@)[n as int]);
}

/// The configs: the conffiles that were listed, and then the drop-in directories that are
/// there, each path once. Where the listing failed, only the directories.
pub proof fn configs_are_conffiles_and_drop_ins(
    t: Seq<char>,
    outcome: capture::CaptureView,
    present: Seq<Seq<char>>,
)
    ensures
        ({
            let dirs = plain_objects(
                SurfaceClass::Config,
                present_dropins(present, 5),
                "drop-in dir"@,
            );
            &&& configs(capture::CaptureView::Output(t), present) == first_of_key(
                plain_objects(SurfaceClass::Config, parse::conffiles(text::lines(t)), "conffile"@)
                    + dirs,
            )
            &&& !(outcome is Output) ==> configs(outcome, present) == first_of_key(dirs)
        }),
{
    let none = plain_objects(SurfaceClass::Config, seq![], "conffile"@);
    let dirs = plain_objects(SurfaceClass::Config, present_dropins(present, 5), "drop-in dir"@);
    assert(none =~= seq![]);
    assert(none + dirs =~= dirs);
}

/// The units, the groups and the capability-bearing files: those that the listings name,
/// one object for each, and none where there is no listing. A group database that cannot be
/// read is an error.
pub proof fn listed_objects(root: Seq<char>, s: String, why: String)
    ensures
        unit_objects(capture::CaptureView::Output(s@)) == plain_objects(
            SurfaceClass::Unit,
            parse::units(text::lines(s@)),
            "service"@,
        ),
        group_objects(root, Ok(s)) == Ok::<Seq<coverage::ObjectView>, coverage::CoverageErrorView>(
            plain_objects(SurfaceClass::Group, parse::group_names(text::lines(s@)), "group"@),
        ),
        group_objects(root, Err(why)) == Err::<
            Seq<coverage::ObjectView>,
            coverage::CoverageErrorView,
        >(
            coverage::CoverageErrorView::Scan(
                "cannot read "@ + catalog::join_path(root, "etc/group"@) + ": "@ + why@,
            ),
        ),
        cap_objects(None).len() == 0,
        cap_objects(Some(capture::CaptureView::Absent)).len() == 0,
        cap_objects(Some(capture::CaptureView::Degraded(why@))).len() == 0,
        ({
            let out = cap_objects(Some(capture::CaptureView::Output(s@)));
            let files = parse::capfiles(text::lines(s@));
            &&& out.len() == files.len()
            &&& forall|i: int|
                0 <= i < files.len() ==> (#[trigger] out[i]).class is CapFile && out[i].key
                    == files[i].0 && out[i].detail == files[i].1 && out[i].provenance is Orphan
        }),
        cap_degradation(None) is None,
        cap_degradation(Some(capture::CaptureView::Degraded(why@))) == Some(
            coverage::DegradedView { class: SurfaceClass::CapFile, reason: why@ },
        ),
        cap_degradation(Some(capture::CaptureView::Output(s@))) is None,
        degradation(SurfaceClass::Unit, capture::CaptureView::Degraded(why@)) == Some(
            coverage::DegradedView { class: SurfaceClass::Unit, reason: why@ },
        ),
{
}

/// The searches: capability-bearing files recursively, in the directories that there are and
/// not at all without one; owners by path, at most 256 in a search. A directory is taken
/// below the root.
pub proof fn how_searches_are_asked(
    root: Seq<char>,
    dir: Seq<char>,
    dirs: Seq<Seq<char>>,
    paths: Seq<Seq<char>>,
    k: int,
)
    ensures
        dirs.len() == 0 ==> getcap_search(dirs) is None,
        dirs.len() > 0 ==> getcap_search(dirs) == Some(seq!["-r"@] + dirs),
        0 <= k < owner_searches(paths).len() ==> owner_searches(paths)[k].len() > 1
            && owner_searches(paths)[k][0] == "-S"@,
        DPKG_SEARCH_CHUNK == 256,
        under_root(root, dir) == catalog::join_path(root, catalog::strip_root(dir)),
    decreases paths.len(),
{
    if paths.len() > DPKG_SEARCH_CHUNK {
        let n = DPKG_SEARCH_CHUNK as int;
        how_searches_are_asked(root, dir, dirs, paths.skip(n), k - 1);
        if k > 0 && k < owner_searches(paths).len() {
            assert(owner_searches(paths)[k] == owner_searches(paths.skip(n))[k - 1]);
        }
    }
}

/// The keys are looked at one by one, in order.
pub proof fn path_keys_add_up(a: Seq<coverage::ObjectView>, b: Seq<coverage::ObjectView>)
    ensures
        path_keys(Seq::<coverage::ObjectView>::empty()).len() == 0,
        path_keys(a + b) == path_keys(a) + path_keys(b),
    decreases b.len(),
{
    if b.len() == 0 {
        assert(a + b =~= a);
        assert(path_keys(a) + path_keys(b) =~= path_keys(a));
    } else {
        path_keys_add_up(a, b.drop_last());
        assert((a + b).drop_last() =~= a + b.drop_last());
        assert((a + b).last() == b.last());
        assert(path_keys(a + b) =~= path_keys(a) + path_keys(b));
    }
}

/// A key is a path where it begins with a slash.
pub proof fn keys_that_are_paths(o: coverage::ObjectView)
    ensures
        o.key.len() > 0 && o.key[0] == '/' ==> path_keys(seq![o]) == seq![o.key],
        !(o.key.len() > 0 && o.key[0] == '/') ==> path_keys(seq![o]).len() == 0,
{
    reveal_with_fuel(path_keys, 2);
    assert(seq![o].drop_last() =~= seq![]);
    assert(seq![o].last() == o);
    assert(Seq::<Seq<char>>::empty().push(o.key) =~= seq![o.key]);
}

/// One answer more: what it says of paths whose owner is not known yet is added. One that
/// failed adds nothing.
pub proof fn one_answer_more(
    answers: Seq<capture::CaptureView>,
    t: Seq<char>,
    outcome: capture::CaptureView,
)
    ensures
        owners_in(Seq::<capture::CaptureView>::empty()) == Map::<Seq<char>, Seq<char>>::empty(),
        owners_in(answers.push(capture::CaptureView::Output(t))) == parse::merged(
            owners_in(answers),
            parse::owned_paths(text::lines(t)),
        ),
        !(outcome is Output) ==> owners_in(answers.push(outcome)) == owners_in(answers),
{
    assert(answers.push(capture::CaptureView::Output(t)).drop_last() =~= answers);
    assert(answers.push(outcome).drop_last() =~= answers);
}

/// An object whose key has an owner gets its provenance from it, and keeps all else; an
/// object without one stays as it is. None is added or lost.
pub proof fn owners_give_provenance(
    objects: Seq<coverage::ObjectView>,
    owners: Map<Seq<char>, Seq<char>>,
    i: int,
)
    requires
        0 <= i < objects.len(),
    ensures
        with_owners(objects, owners).len() == objects.len(),
        with_owners(objects, owners)[i].key == objects[i].key,
        with_owners(objects, owners)[i].class == objects[i].class,
        with_owners(objects, owners)[i].detail == objects[i].detail,
        owners.contains_key(objects[i].key) ==> with_owners(objects, owners)[i].provenance
            == parse::provenance_of(owners[objects[i].key]),
        !owners.contains_key(objects[i].key) ==> with_owners(objects, owners)[i] == objects[i],
{
}

/// What ends a scan: of the classes that are requested, the first of admin binaries that
/// cannot be read, groups that cannot be and a setuid walk that cannot start. A class that is
/// not requested ends nothing.
pub proof fn what_ends_a_scan(root: Seq<char>, classes: Seq<SurfaceClass>, inputs: ScanInputs)
    ensures
        ({
            let bins = sudo_bins(root, inputs.sudo_bins@);
            let groups = group_objects(root, inputs.groups);
            let setuid = objects_view(inputs.setuid);
            let a = classes.contains(SurfaceClass::SudoBin) && bins is Err;
            let b = classes.contains(SurfaceClass::Group) && inputs.groups is Err;
            let c = classes.contains(SurfaceClass::Setuid) && inputs.setuid is Err;
            &&& scan_error(root, classes, inputs) is None <==> !a && !b && !c
            &&& a ==> scan_error(root, classes, inputs) == Some(bins->Err_0)
            &&& !a && b ==> scan_error(root, classes, inputs) == Some(groups->Err_0)
            &&& !a && !b && c ==> scan_error(root, classes, inputs) == Some(setuid->Err_0)
        }),
{
}

/// The objects of a scan that does not end: those of each requested class, the classes in
/// this order, and none of any other class.
pub proof fn scans_go_class_by_class(
    root: Seq<char>,
    classes: Seq<SurfaceClass>,
    inputs: ScanInputs,
)
    requires
        scan_error(root, classes, inputs) is None,
    ensures
        ({
            let none = Seq::<coverage::ObjectView>::empty();
            let bins = if classes.contains(SurfaceClass::SudoBin) {
                sudo_bins(root, inputs.sudo_bins@)->Ok_0
            } else {
                none
            };
            let confs = if classes.contains(SurfaceClass::Config) {
                configs(inputs.conffiles@, text::views(inputs.dropins@))
            } else {
                none
            };
            let units = if classes.contains(SurfaceClass::Unit) {
                unit_objects(inputs.units@)
            } else {
                none
            };
            let groups = if classes.contains(SurfaceClass::Group) {
                group_objects(root, inputs.groups)->Ok_0
            } else {
                none
            };
            let caps = if classes.contains(SurfaceClass::CapFile) {
                cap_objects(opt_capture(inputs.capfiles))
            } else {
                none
            };
            let setuid = if classes.contains(SurfaceClass::Setuid) {
                coverage::object_views(inputs.setuid->Ok_0@)
            } else {
                none
            };
            scan_objects(root, classes, inputs) == bins + confs + units + groups + caps + setuid
        }),
{
}

/// The degradations of a scan: those of the conffile listing, the unit listing and the
/// search for capabilities, in this order, each where its class is requested and its tool
/// failed.
pub proof fn scans_tell_what_failed(classes: Seq<SurfaceClass>, inputs: ScanInputs)
    ensures
        ({
            let out = scan_degradations(classes, inputs);
            let a: int = if classes.contains(SurfaceClass::Config)
                && inputs.conffiles@ is Degraded {
                1
            } else {
                0
            };
            let b: int = if classes.contains(SurfaceClass::Unit) && inputs.units@ is Degraded {
                1
            } else {
                0
            };
            let c: int = if classes.contains(SurfaceClass::CapFile) && inputs.capfiles is Some
                && inputs.capfiles->0@ is Degraded {
                1
            } else {
                0
            };
            &&& out.len() == a + b + c
            &&& a == 1 ==> out[0] == (coverage::DegradedView {
                class: SurfaceClass::Config,
                reason: inputs.conffiles@->Degraded_0,
            })
            &&& b == 1 ==> out[a] == (coverage::DegradedView {
                class: SurfaceClass::Unit,
                reason: inputs.units@->Degraded_0,
            })
            &&& c == 1 ==> out[a + b] == (coverage::DegradedView {
                class: SurfaceClass::CapFile,
                reason: inputs.capfiles->0@->Degraded_0,
            })
        }),
{
}

} // verus!
