use census::catalog::{Access, ResolvedFileGrant, Shape};
use census::coverage::covered::service_restart_unit;
use census::coverage::lookup::{which_grants, GrantKind, GrantSource, GrantTarget};
use census::coverage::report::{
    config_grant_cover, coverage, coverage_scoped, suggest_permission,
    suggest_permission_with_grants, ClassCoverage, CoverageReport, ObjectCoverage,
};
use census::coverage::{
    CatalogEntry, CatalogListing, CoverageCtx, CoverageError, FakeSurface, OsTarget, Provenance,
    ResolvedPermission, ResolvedRole, SurfaceClass, SurfaceObject, SurfaceScanner,
};

/// A permission as the tests write it down.
struct PermissionDef {
    id: String,
    groups: Vec<String>,
    sudo: Vec<String>,
    files: Vec<(String, Access, bool)>,
    includes: Vec<Include>,
}

/// A member of a bundle, with the parameters that it is bound to.
struct Include {
    id: String,
    bindings: Vec<(String, String)>,
}

/// A catalog of permissions, resolved when it is listed.
struct FakeCatalog {
    defs: Vec<PermissionDef>,
}

impl FakeCatalog {
    fn new() -> Self {
        FakeCatalog { defs: Vec::new() }
    }

    fn with(mut self, _layer: &str, def: PermissionDef) -> Self {
        self.defs.push(def);
        self
    }

    fn resolve(&self, id: &str, above: &[&str]) -> Result<ResolvedPermission, String> {
        if above.contains(&id) {
            return Err(format!("cycle through {id}"));
        }
        let def = match self.defs.iter().find(|d| d.id == id) {
            Some(d) => d,
            None => return Err(format!("unknown permission {id}")),
        };
        let mut out = ResolvedPermission {
            sudo: def.sudo.clone(),
            groups: def.groups.clone(),
            file_grants: def
                .files
                .iter()
                .map(|(path, access, recursive)| rfg(path, *access, *recursive))
                .collect(),
        };
        let mut seen = above.to_vec();
        seen.push(id);
        for member_of in &def.includes {
            let member = self.resolve(&member_of.id, &seen)?;
            for command in member.sudo {
                let mut bound = command;
                for (name, value) in &member_of.bindings {
                    bound = bound.replace(&format!("{{{name}}}"), value);
                }
                out.sudo.push(bound);
            }
            out.groups.extend(member.groups);
            out.file_grants.extend(member.file_grants);
        }
        Ok(out)
    }

    fn listing(&self) -> CatalogListing {
        CatalogListing::Entries(
            self.defs
                .iter()
                .map(|d| CatalogEntry {
                    id: d.id.clone(),
                    resolved: self.resolve(&d.id, &[]),
                })
                .collect(),
        )
    }
}

fn debian() -> OsTarget {
    OsTarget {
        layers: vec!["linux".to_owned(), "linux-debian".to_owned()],
    }
}

fn def(id: &str) -> PermissionDef {
    PermissionDef {
        id: id.to_owned(),
        groups: Vec::new(),
        sudo: Vec::new(),
        files: Vec::new(),
        includes: Vec::new(),
    }
}

fn includes_def(id: &str, includes: &[&str]) -> PermissionDef {
    PermissionDef {
        includes: includes
            .iter()
            .map(|s| Include {
                id: s.to_string(),
                bindings: Vec::new(),
            })
            .collect(),
        ..def(id)
    }
}

fn sudo_def(id: &str, sudo: &[&str]) -> PermissionDef {
    PermissionDef {
        sudo: sudo.iter().map(|s| s.to_string()).collect(),
        ..def(id)
    }
}

fn group_def(id: &str, groups: &[&str]) -> PermissionDef {
    PermissionDef {
        groups: groups.iter().map(|s| s.to_string()).collect(),
        ..def(id)
    }
}

/// A catalog record carrying one file grant (path/access/recursive).
fn file_def(id: &str, path: &str, access: Access, recursive: bool) -> PermissionDef {
    PermissionDef {
        files: vec![(path.to_owned(), access, recursive)],
        ..def(id)
    }
}

fn pct(fraction: (usize, usize)) -> f64 {
    100.0 * fraction.0 as f64 / fraction.1 as f64
}

/// A resolved file grant for a role instance (already concrete/substituted).
fn rfg(path: &str, access: Access, recursive: bool) -> ResolvedFileGrant {
    let shape = if recursive {
        Shape::Dir
    } else if path.contains('*') {
        Shape::Pattern
    } else {
        Shape::File
    };
    ResolvedFileGrant {
        path: path.to_owned(),
        access,
        recursive,
        shape,
    }
}

fn obj(class: SurfaceClass, key: &str, prov: Provenance) -> SurfaceObject {
    SurfaceObject {
        class,
        key: key.to_owned(),
        provenance: prov,
        detail: String::new(),
    }
}

fn ctx() -> CoverageCtx {
    CoverageCtx {
        strict: false,
        catalog_version: Some("2026.06".to_owned()),
        bound_grant_groups: Vec::new(),
    }
}

fn find<'a>(report: &'a CoverageReport, key: &str) -> &'a ObjectCoverage {
    report
        .objects
        .iter()
        .find(|o| o.object.key == key)
        .unwrap_or_else(|| panic!("no object {key} in report"))
}

fn class_cov(report: &CoverageReport, class: SurfaceClass) -> &ClassCoverage {
    report.by_class.iter().find(|c| c.class == class).unwrap()
}

// --- FakeSurface scanner seam ------------------------------------------

#[test]
fn fake_surface_filters_by_class() {
    let s = FakeSurface::new()
        .with(obj(
            SurfaceClass::SudoBin,
            "/usr/sbin/ip",
            Provenance::Vendor,
        ))
        .with(obj(SurfaceClass::Group, "netdev", Provenance::Vendor));
    let only_bins = s.scan(&[SurfaceClass::SudoBin]).unwrap().objects;
    assert_eq!(only_bins.len(), 1);
    assert_eq!(only_bins[0].key, "/usr/sbin/ip");
}

// --- sudo_bin coverage -------------------------------------------------

#[test]
fn sudo_bin_covered_by_expanded_sudo_string() {
    // Catalog grants sudo /usr/sbin/ip; the binary /usr/sbin/ip is covered.
    let cat = FakeCatalog::new().with("linux", sudo_def("network-admin", &["/usr/sbin/ip"]));
    let surface = vec![obj(
        SurfaceClass::SudoBin,
        "/usr/sbin/ip",
        Provenance::Vendor,
    )];
    let r = coverage(&surface, &cat.listing(), &debian(), &[], &ctx()).unwrap();
    assert!(find(&r, "/usr/sbin/ip").covered);
    assert_eq!(class_cov(&r, SurfaceClass::SudoBin).covered, 1);
}

#[test]
fn sudo_bin_covered_via_argv_boundary() {
    // A sudo string WITH arguments still covers the bare binary: the args only
    // narrow what it does, they do not change which binary is reachable.
    let cat = FakeCatalog::new().with(
        "linux",
        sudo_def("power-control", &["/sbin/shutdown -r now"]),
    );
    let surface = vec![obj(
        SurfaceClass::SudoBin,
        "/sbin/shutdown",
        Provenance::Vendor,
    )];
    let r = coverage(&surface, &cat.listing(), &debian(), &[], &ctx()).unwrap();
    assert!(find(&r, "/sbin/shutdown").covered);
}

#[test]
fn literal_bound_bundle_member_sudo_is_covered() {
    // A bundle whose include LITERALLY binds a parametrized leaf (e.g.
    // `{ id = "svc-restart", units = "nginx" }`, no role `{param}`) contributes
    // the rendered member command to the covered set, so the concrete
    // `/usr/sbin/svcctl` is on the catalog surface.
    let leaf = sudo_def("svc-restart", &["/usr/sbin/svcctl restart {units}"]);
    let bundle = PermissionDef {
        includes: vec![Include {
            id: "svc-restart".to_owned(),
            bindings: std::iter::once(("units".to_owned(), "nginx".to_owned())).collect(),
        }],
        ..def("nginx.operate")
    };
    let cat = FakeCatalog::new().with("linux", leaf).with("linux", bundle);
    let surface = vec![obj(
        SurfaceClass::SudoBin,
        "/usr/sbin/svcctl",
        Provenance::Vendor,
    )];
    let r = coverage(&surface, &cat.listing(), &debian(), &[], &ctx()).unwrap();
    assert!(
        find(&r, "/usr/sbin/svcctl").covered,
        "a literal-bound bundle member's sudo binary must be covered via resolve() without params"
    );
}

#[test]
fn uncovered_sudo_bin_gets_suggestion() {
    // /usr/sbin/cryptsetup not granted by anything → uncovered + suggestion.
    let cat = FakeCatalog::new().with("linux", sudo_def("network-admin", &["/usr/sbin/ip"]));
    let surface = vec![obj(
        SurfaceClass::SudoBin,
        "/usr/sbin/cryptsetup",
        Provenance::Vendor,
    )];
    let r = coverage(&surface, &cat.listing(), &debian(), &[], &ctx()).unwrap();
    let c = find(&r, "/usr/sbin/cryptsetup");
    assert!(!c.covered);
    assert_eq!(c.suggested_permission.as_deref(), Some("luks-admin"));
}

// --- parametrized prefix / strict --------------------------------------

#[test]
fn parametrized_prefix_covers_binary_without_instance_non_strict() {
    // A templated record `systemctl restart {unit}` with NO role instance:
    // in non-strict mode the binary /usr/bin/systemctl is potentially covered.
    let cat = FakeCatalog::new().with(
        "linux",
        sudo_def("service-restart", &["/usr/bin/systemctl restart {unit}"]),
    );
    let surface = vec![obj(
        SurfaceClass::SudoBin,
        "/usr/bin/systemctl",
        Provenance::Vendor,
    )];
    let r = coverage(&surface, &cat.listing(), &debian(), &[], &ctx()).unwrap();
    assert!(find(&r, "/usr/bin/systemctl").covered);
}

#[test]
fn parametrized_prefix_not_covered_under_strict() {
    let cat = FakeCatalog::new().with(
        "linux",
        sudo_def("service-restart", &["/usr/bin/systemctl restart {unit}"]),
    );
    let surface = vec![obj(
        SurfaceClass::SudoBin,
        "/usr/bin/systemctl",
        Provenance::Vendor,
    )];
    let strict = CoverageCtx {
        strict: true,
        catalog_version: None,
        bound_grant_groups: Vec::new(),
    };
    let r = coverage(&surface, &cat.listing(), &debian(), &[], &strict).unwrap();
    assert!(
        !find(&r, "/usr/bin/systemctl").covered,
        "strict must not count a parametrized record without an instance"
    );
}

#[test]
fn role_instance_covers_named_unit() {
    // A role instance contributes a concrete `systemctl restart atm-app`
    // command; the unit atm-app (and atm-app.service) is then covered, even
    // under strict (a concrete instance, not a bare template).
    let cat = FakeCatalog::new().with(
        "linux",
        sudo_def("service-restart", &["/usr/bin/systemctl restart {unit}"]),
    );
    let role = ResolvedRole::new(
        vec!["/usr/bin/systemctl restart atm-app".to_owned()],
        vec![],
    );
    let surface = vec![
        obj(SurfaceClass::Unit, "atm-app.service", Provenance::Vendor),
        obj(SurfaceClass::Unit, "other.service", Provenance::Vendor),
    ];
    let strict = CoverageCtx {
        strict: true,
        catalog_version: None,
        bound_grant_groups: Vec::new(),
    };
    let r = coverage(&surface, &cat.listing(), &debian(), &[role], &strict).unwrap();
    assert!(find(&r, "atm-app.service").covered);
    assert!(!find(&r, "other.service").covered);
}

#[test]
fn service_admin_covers_all_units() {
    // service-admin present → every unit covered, no per-unit instance needed.
    let cat =
        FakeCatalog::new().with("linux", sudo_def("service-admin", &["/usr/bin/systemctl"]));
    let surface = vec![
        obj(SurfaceClass::Unit, "atm-app.service", Provenance::Vendor),
        obj(SurfaceClass::Unit, "sshd.service", Provenance::Vendor),
    ];
    let r = coverage(&surface, &cat.listing(), &debian(), &[], &ctx()).unwrap();
    assert!(find(&r, "atm-app.service").covered);
    assert!(find(&r, "sshd.service").covered);
}

#[test]
fn unresolvable_service_admin_does_not_flip_unit_class_to_covered() {
    // `service-admin` exists in the catalog but cannot resolve (it includes an
    // unknown id). The class-wide "covers every unit" flag must NOT be set off
    // bare id presence — a permission that never resolves grants nothing. So
    // every unit stays uncovered and the failure is recorded as a catalog
    // warning, instead of a class-wide false "covered".
    let cat =
        FakeCatalog::new().with("linux", includes_def("service-admin", &["does-not-exist"]));
    let surface = vec![
        obj(SurfaceClass::Unit, "atm-app.service", Provenance::Vendor),
        obj(SurfaceClass::Unit, "sshd.service", Provenance::Vendor),
    ];
    let r = coverage(&surface, &cat.listing(), &debian(), &[], &ctx()).unwrap();
    assert!(
        !find(&r, "atm-app.service").covered,
        "an unresolvable service-admin must not cover units"
    );
    assert!(!find(&r, "sshd.service").covered);
    assert_eq!(class_cov(&r, SurfaceClass::Unit).covered, 0);
    assert!(
        r.catalog_warnings
            .iter()
            .any(|w| w.contains("service-admin")),
        "the unresolvable id must be recorded as a warning: {:?}",
        r.catalog_warnings
    );
}

#[test]
fn unresolvable_capability_admin_does_not_flip_capfile_class_to_covered() {
    // Same fail-closed rule for the capfile class-wide flag: a present-but-
    // unresolvable `capability-admin` must not mark every capfile covered.
    let cat = FakeCatalog::new().with(
        "linux",
        includes_def("capability-admin", &["does-not-exist"]),
    );
    let surface = vec![obj(
        SurfaceClass::CapFile,
        "/usr/bin/ping",
        Provenance::Vendor,
    )];
    let r = coverage(&surface, &cat.listing(), &debian(), &[], &ctx()).unwrap();
    assert!(!find(&r, "/usr/bin/ping").covered);
    assert!(r
        .catalog_warnings
        .iter()
        .any(|w| w.contains("capability-admin")));
}

// --- group / capfile ---------------------------------------------------

#[test]
fn group_covered_by_set_membership() {
    let cat = FakeCatalog::new().with("linux", group_def("network-admin", &["netdev"]));
    let surface = vec![
        obj(SurfaceClass::Group, "netdev", Provenance::Vendor),
        obj(SurfaceClass::Group, "video", Provenance::Vendor),
    ];
    let r = coverage(&surface, &cat.listing(), &debian(), &[], &ctx()).unwrap();
    assert!(find(&r, "netdev").covered);
    assert!(!find(&r, "video").covered);
    // netdev carries a domain suggestion; the covered one has none.
    assert_eq!(find(&r, "netdev").suggested_permission, None);
}

#[test]
fn group_covered_by_role_binding_grant() {
    // A group with no membership-covering primitive is an honest gap by
    // default; once a `[[role_group]]` binding attaches a grant to it (folded
    // in via `bound_grant_groups`), the same group object is covered.
    let cat = FakeCatalog::new().with("linux", sudo_def("net", &["/usr/sbin/ip"]));
    let surface = vec![obj(
        SurfaceClass::Group,
        "atm-operators",
        Provenance::Vendor,
    )];

    // No binding → uncovered gap.
    let r = coverage(&surface, &cat.listing(), &debian(), &[], &ctx()).unwrap();
    assert!(!find(&r, "atm-operators").covered);

    // With a binding-covered group folded in → covered.
    let bound = CoverageCtx {
        strict: false,
        catalog_version: None,
        bound_grant_groups: vec!["atm-operators".to_owned()],
    };
    let r2 = coverage(&surface, &cat.listing(), &debian(), &[], &bound).unwrap();
    assert!(find(&r2, "atm-operators").covered);
    assert_eq!(class_cov(&r2, SurfaceClass::Group).covered, 1);
}

#[test]
fn capfile_covered_by_capability_admin_presence() {
    let with =
        FakeCatalog::new().with("linux", sudo_def("capability-admin", &["/usr/sbin/setcap"]));
    let surface = vec![obj(
        SurfaceClass::CapFile,
        "/usr/bin/ping",
        Provenance::Vendor,
    )];
    let r = coverage(&surface, &with.listing(), &debian(), &[], &ctx()).unwrap();
    assert!(find(&r, "/usr/bin/ping").covered);

    // Without capability-admin, the same capfile is uncovered.
    let without =
        FakeCatalog::new().with("linux", sudo_def("network-admin", &["/usr/sbin/ip"]));
    let r2 = coverage(&surface, &without.listing(), &debian(), &[], &ctx()).unwrap();
    assert!(!find(&r2, "/usr/bin/ping").covered);
}

// --- setuid inventory + anomalies --------------------------------------

#[test]
fn setuid_reported_as_inventory_not_grant() {
    let cat = FakeCatalog::new().with("linux", sudo_def("network-admin", &["/usr/sbin/ip"]));
    let surface = vec![obj(
        SurfaceClass::Setuid,
        "/usr/bin/mount",
        Provenance::Vendor,
    )];
    let r = coverage(&surface, &cat.listing(), &debian(), &[], &ctx()).unwrap();
    // It is in the inventory, NOT in the per-object coverage tally and not an
    // anomaly (it is package-owned).
    assert_eq!(r.setuid_inventory.len(), 1);
    assert_eq!(r.setuid_inventory[0].key, "/usr/bin/mount");
    assert!(r.anomalies.is_empty());
    assert!(r.objects.iter().all(|o| o.object.key != "/usr/bin/mount"));
}

#[test]
fn orphan_setuid_is_anomaly() {
    let cat = FakeCatalog::new().with("linux", sudo_def("network-admin", &["/usr/sbin/ip"]));
    let surface = vec![obj(
        SurfaceClass::Setuid,
        "/opt/vendor/flasher",
        Provenance::Orphan,
    )];
    let r = coverage(&surface, &cat.listing(), &debian(), &[], &ctx()).unwrap();
    assert_eq!(r.anomalies.len(), 1);
    assert_eq!(r.anomalies[0].key, "/opt/vendor/flasher");
}

#[test]
fn orphan_capfile_is_anomaly() {
    let cat = FakeCatalog::new().with("linux", sudo_def("network-admin", &["/usr/sbin/ip"]));
    let surface = vec![obj(
        SurfaceClass::CapFile,
        "/opt/x/weird",
        Provenance::Orphan,
    )];
    let r = coverage(&surface, &cat.listing(), &debian(), &[], &ctx()).unwrap();
    assert_eq!(r.anomalies.len(), 1);
    assert_eq!(r.anomalies[0].key, "/opt/x/weird");
}

// --- intentionally-uncovered -------------------------------------------

#[test]
fn escalation_mechanism_flagged_not_penalising() {
    let cat = FakeCatalog::new().with("linux", sudo_def("network-admin", &["/usr/sbin/ip"]));
    let surface = vec![
        obj(SurfaceClass::SudoBin, "/usr/bin/su", Provenance::Vendor),
        obj(SurfaceClass::SudoBin, "/usr/sbin/ip", Provenance::Vendor),
    ];
    let r = coverage(&surface, &cat.listing(), &debian(), &[], &ctx()).unwrap();
    let su = find(&r, "/usr/bin/su");
    assert!(su.intentional_exclusion.is_some());
    assert!(!su.covered);
    // The metric counts only ip (1/1 = 100%), su does not penalise it.
    assert_eq!(class_cov(&r, SurfaceClass::SudoBin).total, 1);
    assert_eq!(class_cov(&r, SurfaceClass::SudoBin).covered, 1);
    assert_eq!(pct(r.overall()), 100.0);
}

#[test]
fn pdpl_binary_flagged_commercial() {
    let cat = FakeCatalog::new().with("linux", sudo_def("network-admin", &["/usr/sbin/ip"]));
    let surface = vec![obj(
        SurfaceClass::SudoBin,
        "/usr/bin/pdpl-user",
        Provenance::Vendor,
    )];
    let r = coverage(&surface, &cat.listing(), &debian(), &[], &ctx()).unwrap();
    let p = find(&r, "/usr/bin/pdpl-user");
    assert!(p.intentional_exclusion.as_deref().unwrap().contains("pdpl"));
    // Not counted in the metric denominator.
    assert_eq!(class_cov(&r, SurfaceClass::SudoBin).total, 0);
}

#[test]
fn astra_admin_group_flagged_site_layer() {
    let cat = FakeCatalog::new().with("linux", group_def("network-admin", &["netdev"]));
    let surface = vec![obj(SurfaceClass::Group, "astra-admin", Provenance::Vendor)];
    let r = coverage(&surface, &cat.listing(), &debian(), &[], &ctx()).unwrap();
    let g = find(&r, "astra-admin");
    assert!(g.intentional_exclusion.is_some());
    assert_eq!(class_cov(&r, SurfaceClass::Group).total, 0);
}

// --- overall_pct math + false positives --------------------------------

#[test]
fn overall_pct_weighted_by_object_count() {
    // 3 sudo bins (2 covered) + 1 group (1 covered) = 3/4 = 75%.
    let cat = FakeCatalog::new()
        .with("linux", sudo_def("a", &["/usr/sbin/ip", "/usr/bin/nmcli"]))
        .with("linux", group_def("g", &["netdev"]));
    let surface = vec![
        obj(SurfaceClass::SudoBin, "/usr/sbin/ip", Provenance::Vendor),
        obj(SurfaceClass::SudoBin, "/usr/bin/nmcli", Provenance::Vendor),
        obj(
            SurfaceClass::SudoBin,
            "/usr/sbin/cryptsetup",
            Provenance::Vendor,
        ),
        obj(SurfaceClass::Group, "netdev", Provenance::Vendor),
    ];
    let r = coverage(&surface, &cat.listing(), &debian(), &[], &ctx()).unwrap();
    assert_eq!(pct(r.overall()), 75.0);
}

#[test]
fn transitive_escape_does_not_fabricate_coverage() {
    // The catalog grants only /usr/bin/vi. /bin/sh is reachable via vi's
    // shell escape, but coverage must NOT mark /bin/sh covered — only the
    // granted binary is covered; the escape is a risk concern, not coverage.
    let cat = FakeCatalog::new().with("linux", sudo_def("edit", &["/usr/bin/vi"]));
    let surface = vec![
        obj(SurfaceClass::SudoBin, "/usr/bin/vi", Provenance::Vendor),
        obj(SurfaceClass::SudoBin, "/bin/sh", Provenance::Vendor),
    ];
    let r = coverage(&surface, &cat.listing(), &debian(), &[], &ctx()).unwrap();
    assert!(find(&r, "/usr/bin/vi").covered);
    assert!(!find(&r, "/bin/sh").covered);
}

#[test]
fn binary_variants_do_not_auto_cover_each_other() {
    // Granting iptables does NOT cover iptables-restore — the production
    // firewall uses -restore explicitly; they must both be granted or both
    // uncovered.
    let cat = FakeCatalog::new().with("linux", sudo_def("fw", &["/usr/sbin/iptables"]));
    let surface = vec![
        obj(
            SurfaceClass::SudoBin,
            "/usr/sbin/iptables",
            Provenance::Vendor,
        ),
        obj(
            SurfaceClass::SudoBin,
            "/usr/sbin/iptables-restore",
            Provenance::Vendor,
        ),
    ];
    let r = coverage(&surface, &cat.listing(), &debian(), &[], &ctx()).unwrap();
    assert!(find(&r, "/usr/sbin/iptables").covered);
    assert!(!find(&r, "/usr/sbin/iptables-restore").covered);
}

#[test]
fn sudo_bin_prefix_boundary_does_not_overcover() {
    // Granting sudo `/usr/sbin/ip` must NOT cover the distinct binary
    // `/usr/sbin/ipset`: they share a path PREFIX but are different
    // executables, told apart at the path-segment boundary.
    let cat = FakeCatalog::new().with("linux", sudo_def("network-admin", &["/usr/sbin/ip"]));
    let surface = vec![
        obj(SurfaceClass::SudoBin, "/usr/sbin/ip", Provenance::Vendor),
        obj(SurfaceClass::SudoBin, "/usr/sbin/ipset", Provenance::Vendor),
    ];
    let r = coverage(&surface, &cat.listing(), &debian(), &[], &ctx()).unwrap();
    assert!(find(&r, "/usr/sbin/ip").covered);
    assert!(
        !find(&r, "/usr/sbin/ipset").covered,
        "a path-prefix neighbour must not be over-covered"
    );
}

#[test]
fn one_unresolvable_catalog_id_does_not_abort_audit() {
    // A catalog with one cyclic (unresolvable) permission alongside several
    // good ones: coverage must still produce a report over the good ids and
    // record the bad id as a warning — NOT return an Err. A read-only audit
    // ("did we forget anything?") must not be sunk by one malformed record.
    let cat = FakeCatalog::new()
        .with("linux", sudo_def("network-admin", &["/usr/sbin/ip"]))
        .with("linux", group_def("net-grp", &["netdev"]))
        // bad <-> loop: includes each other → resolve returns Cycle for both.
        .with("linux", includes_def("bad", &["loop"]))
        .with("linux", includes_def("loop", &["bad"]));
    let surface = vec![
        obj(SurfaceClass::SudoBin, "/usr/sbin/ip", Provenance::Vendor),
        obj(SurfaceClass::Group, "netdev", Provenance::Vendor),
    ];

    let r = coverage(&surface, &cat.listing(), &debian(), &[], &ctx())
        .expect("coverage must not abort on one bad catalog id");

    // The good ids still contributed coverage.
    assert!(find(&r, "/usr/sbin/ip").covered);
    assert!(find(&r, "netdev").covered);

    // The bad id(s) are surfaced as warnings, naming the offending id.
    assert!(
        !r.catalog_warnings.is_empty(),
        "the cyclic id must be recorded as a warning"
    );
    assert!(
        r.catalog_warnings
            .iter()
            .any(|w| w.contains("bad") || w.contains("loop")),
        "warning must name the unresolvable id: {:?}",
        r.catalog_warnings
    );
}

#[test]
fn config_uncovered_without_any_grant() {
    // No file grant touches /etc/ssh; the config object is in scope
    // (security-relevant prefix) but honestly uncovered, with a suggestion to
    // declare a directory file grant.
    let cat = FakeCatalog::new().with("linux", sudo_def("net", &["/usr/sbin/ip"]));
    let surface = vec![obj(
        SurfaceClass::Config,
        "/etc/ssh/sshd_config",
        Provenance::Vendor,
    )];
    let r = coverage(&surface, &cat.listing(), &debian(), &[], &ctx()).unwrap();
    let c = find(&r, "/etc/ssh/sshd_config");
    assert!(!c.covered);
    assert_eq!(
        c.suggested_permission.as_deref(),
        Some("file grant rw on /etc/ssh (recursive)")
    );
}

// --- backend-limited config (single file in non-grantable parent) ------

#[test]
fn single_file_in_non_grantable_parent_is_backend_limited_not_a_gap() {
    // /etc/login.defs is security-relevant (in scope) and ungranted, but it
    // sits directly in /etc — a non-grantable parent. The dir-only AclBackend
    // can't cover it without granting all of /etc, so it is backend-limited,
    // NOT an uncovered gap, and it does not count toward the metric.
    let cat = FakeCatalog::new().with("linux", sudo_def("net", &["/usr/sbin/ip"]));
    let surface = vec![obj(
        SurfaceClass::Config,
        "/etc/login.defs",
        Provenance::Vendor,
    )];
    let r = coverage(&surface, &cat.listing(), &debian(), &[], &ctx()).unwrap();
    let c = find(&r, "/etc/login.defs");
    assert!(!c.covered);
    assert!(
        c.backend_limited.is_some(),
        "a single file in /etc must be backend-limited"
    );
    assert!(c.intentional_exclusion.is_none());
    // Excluded from the config denominator (not a gap, not counted).
    assert_eq!(class_cov(&r, SurfaceClass::Config).total, 0);
    assert_eq!(class_cov(&r, SurfaceClass::Config).covered, 0);
}

#[test]
fn backend_limited_recognises_etc_ssl_bare_file() {
    // /etc/ssl/openssl.cnf sits directly in /etc/ssl (a shared trust dir, in
    // NON_GRANTABLE_PARENTS) — backend-limited, same as a bare /etc file.
    let cat = FakeCatalog::new().with("linux", sudo_def("net", &["/usr/sbin/ip"]));
    let surface = vec![obj(
        SurfaceClass::Config,
        "/etc/ssl/openssl.cnf",
        Provenance::Vendor,
    )];
    let r = coverage(&surface, &cat.listing(), &debian(), &[], &ctx()).unwrap();
    let c = find(&r, "/etc/ssl/openssl.cnf");
    assert!(c.backend_limited.is_some(), "{c:?}");
    assert_eq!(class_cov(&r, SurfaceClass::Config).total, 0);
}

#[test]
fn file_under_grantable_subdir_stays_a_genuine_gap() {
    // /etc/ssh/sshd_config sits under /etc/ssh, a grantable directory: with no
    // grant it is a GENUINE uncovered gap (not backend-limited), and it counts.
    let cat = FakeCatalog::new().with("linux", sudo_def("net", &["/usr/sbin/ip"]));
    let surface = vec![obj(
        SurfaceClass::Config,
        "/etc/ssh/sshd_config",
        Provenance::Vendor,
    )];
    let r = coverage(&surface, &cat.listing(), &debian(), &[], &ctx()).unwrap();
    let c = find(&r, "/etc/ssh/sshd_config");
    assert!(!c.covered);
    assert!(
        c.backend_limited.is_none(),
        "a file under a grantable subdir is a real gap, not backend-limited"
    );
    assert_eq!(class_cov(&r, SurfaceClass::Config).total, 1);
}

#[test]
fn exact_file_shape_grant_on_config_is_not_covered_in_open_build() {
    // A per-file (`File`-shape, non-recursive) grant resolved exactly onto a
    // config path does NOT count as covered in the open build: the dir-only
    // AclBackend cannot enforce a single-file grant, so declaring one must not
    // flip the object to covered (which would inflate the numerator off a
    // guarantee the installed backend cannot make). It is routed to the
    // backend-limited bucket — mirroring the ungranted single-file case — and
    // excluded from the metric denominator. A per-file-capable (commercial)
    // backend would cover it; the open build honestly cannot.
    let cat = FakeCatalog::new().with(
        "linux",
        file_def("logindefs", "/etc/login.defs", Access::Rw, false),
    );
    let surface = vec![obj(
        SurfaceClass::Config,
        "/etc/login.defs",
        Provenance::Vendor,
    )];
    let r = coverage(&surface, &cat.listing(), &debian(), &[], &ctx()).unwrap();
    let c = find(&r, "/etc/login.defs");
    assert!(
        !c.covered,
        "an unenforceable File-shape grant must not count as covered"
    );
    assert!(
        c.backend_limited.is_some(),
        "a declared-but-unenforceable File grant routes to backend-limited"
    );
    assert!(c.coverage_note.is_none());
    // Excluded from the denominator, exactly like the ungranted single-file case.
    assert_eq!(class_cov(&r, SurfaceClass::Config).total, 0);
    assert_eq!(class_cov(&r, SurfaceClass::Config).covered, 0);
}

#[test]
fn enforceable_dir_grant_outranks_a_paper_file_grant_on_same_path() {
    // A path covered by BOTH an enforceable recursive Dir grant and a per-file
    // grant is reported as truly covered (via the Dir grant), not demoted to
    // backend-limited: enforceability ranks first in the covering-grant choice.
    let cat = FakeCatalog::new()
        .with("linux", file_def("ssh-dir", "/etc/ssh", Access::Rw, true))
        .with(
            "linux",
            file_def("ssh-file", "/etc/ssh/sshd_config", Access::Rw, false),
        );
    let surface = vec![obj(
        SurfaceClass::Config,
        "/etc/ssh/sshd_config",
        Provenance::Vendor,
    )];
    let r = coverage(&surface, &cat.listing(), &debian(), &[], &ctx()).unwrap();
    let c = find(&r, "/etc/ssh/sshd_config");
    assert!(
        c.covered,
        "an enforceable Dir grant must win over a paper File grant"
    );
    assert_eq!(c.coverage_note.as_deref(), Some("rw via AclBackend (dir)"));
    assert!(c.backend_limited.is_none());
    assert_eq!(class_cov(&r, SurfaceClass::Config).covered, 1);
}

#[test]
fn backend_limited_excluded_from_denominator_alongside_real_gap() {
    // A mix: one backend-limited bare /etc file + one genuine gap under a
    // grantable subdir. Only the genuine gap counts (1/1 denominator → 0%
    // covered), the backend-limited one is excluded entirely.
    let cat = FakeCatalog::new().with("linux", sudo_def("net", &["/usr/sbin/ip"]));
    let surface = vec![
        obj(SurfaceClass::Config, "/etc/login.defs", Provenance::Vendor),
        obj(
            SurfaceClass::Config,
            "/etc/ssh/sshd_config",
            Provenance::Vendor,
        ),
    ];
    let r = coverage(&surface, &cat.listing(), &debian(), &[], &ctx()).unwrap();
    assert!(find(&r, "/etc/login.defs").backend_limited.is_some());
    let gap = find(&r, "/etc/ssh/sshd_config");
    assert!(!gap.covered && gap.backend_limited.is_none());
    assert_eq!(
        class_cov(&r, SurfaceClass::Config).total,
        1,
        "only the genuine gap counts; backend-limited excluded"
    );
}

// --- config coverage via file grants -------------------------

#[test]
fn config_under_recursive_dir_grant_is_covered_with_backend_note() {
    // Catalog gives a recursive rw Dir grant on /etc/ssh; the config object
    // /etc/ssh/sshd_config under it is covered, with an AclBackend (dir) note.
    let cat =
        FakeCatalog::new().with("linux", file_def("ssh-edit", "/etc/ssh", Access::Rw, true));
    let surface = vec![obj(
        SurfaceClass::Config,
        "/etc/ssh/sshd_config",
        Provenance::Vendor,
    )];
    let r = coverage(&surface, &cat.listing(), &debian(), &[], &ctx()).unwrap();
    let c = find(&r, "/etc/ssh/sshd_config");
    assert!(c.covered);
    assert_eq!(c.coverage_note.as_deref(), Some("rw via AclBackend (dir)"));
    assert_eq!(class_cov(&r, SurfaceClass::Config).covered, 1);
    assert_eq!(class_cov(&r, SurfaceClass::Config).total, 1);
}

#[test]
fn config_ro_vs_rw_distinguished_in_note() {
    // An ro recursive grant yields an `ro` note (not rw).
    let cat =
        FakeCatalog::new().with("linux", file_def("ssh-read", "/etc/ssh", Access::Ro, true));
    let surface = vec![obj(
        SurfaceClass::Config,
        "/etc/ssh/sshd_config",
        Provenance::Vendor,
    )];
    let r = coverage(&surface, &cat.listing(), &debian(), &[], &ctx()).unwrap();
    assert_eq!(
        find(&r, "/etc/ssh/sshd_config").coverage_note.as_deref(),
        Some("ro via AclBackend (dir)")
    );
}

#[test]
fn config_path_boundary_not_naive_prefix() {
    // /etc/security recursive must NOT cover /etc/securetty — they share a
    // textual prefix but not a path-component boundary. Both are security-
    // relevant (so both are in scope and counted), which makes the boundary
    // miss observable as an uncovered object, guarding against starts_with.
    let cat = FakeCatalog::new().with(
        "linux",
        file_def("sec-edit", "/etc/security", Access::Rw, true),
    );
    let surface = vec![
        obj(
            SurfaceClass::Config,
            "/etc/security/limits.conf",
            Provenance::Vendor,
        ),
        obj(SurfaceClass::Config, "/etc/securetty", Provenance::Vendor),
    ];
    let r = coverage(&surface, &cat.listing(), &debian(), &[], &ctx()).unwrap();
    assert!(find(&r, "/etc/security/limits.conf").covered);
    assert!(
        !find(&r, "/etc/securetty").covered,
        "a textual-prefix neighbour must not be over-covered"
    );
}

#[test]
fn non_recursive_grant_covers_only_exact_path() {
    // A non-recursive File grant on /etc/sudoers MATCHES that exact path, NOT a
    // child of /etc/sudoers.d (which it makes no claim on). In the open build a
    // File-shape grant is declared-but-unenforceable (the dir-only AclBackend
    // can't constrain a single file), so the matched exact path is reported
    // backend-limited rather than covered — but it remains the only path the
    // grant matches.
    let cat = FakeCatalog::new().with(
        "linux",
        file_def("sudoers-edit", "/etc/sudoers", Access::Rw, false),
    );
    let surface = vec![
        obj(SurfaceClass::Config, "/etc/sudoers", Provenance::Vendor),
        obj(
            SurfaceClass::Config,
            "/etc/sudoers.d/census",
            Provenance::Vendor,
        ),
    ];
    let r = coverage(&surface, &cat.listing(), &debian(), &[], &ctx()).unwrap();
    let exact = find(&r, "/etc/sudoers");
    // Matched by the grant, but a File-shape grant is unenforceable in the open
    // build → backend-limited, not covered.
    assert!(!exact.covered);
    assert!(exact.backend_limited.is_some());
    // The child the non-recursive grant makes no claim on is not covered by it.
    assert!(!find(&r, "/etc/sudoers.d/census").covered);
}

#[test]
fn config_covered_by_role_instance_grant() {
    // A parametrized config-edit grant is templated in the catalog (no concrete
    // path) and only a role instance supplies /etc/nginx. With the role folded
    // in, the config object under it is covered.
    let cat = FakeCatalog::new().with(
        "linux",
        file_def("app-config-edit", "/etc/{app}", Access::Rw, true),
    );
    let surface = vec![obj(
        SurfaceClass::Config,
        "/etc/nginx/nginx.conf",
        Provenance::Vendor,
    )];

    // Without the role instance: templated grant is not concrete → uncovered.
    // (/etc/nginx is not in the curated set, so it is only in scope BECAUSE a
    // grant — once concrete — names it; without the instance it is dropped.)
    let r0 = coverage(&surface, &cat.listing(), &debian(), &[], &ctx()).unwrap();
    assert!(r0
        .objects
        .iter()
        .all(|o| o.object.key != "/etc/nginx/nginx.conf"));

    // With the role instance contributing a concrete /etc/nginx recursive grant.
    let role = ResolvedRole::with_file_grants(
        vec![],
        vec![],
        vec![rfg("/etc/nginx", Access::Rw, true)],
    );
    let r = coverage(&surface, &cat.listing(), &debian(), &[role], &ctx()).unwrap();
    let c = find(&r, "/etc/nginx/nginx.conf");
    assert!(c.covered);
    assert_eq!(c.coverage_note.as_deref(), Some("rw via AclBackend (dir)"));
}

#[test]
fn non_security_relevant_config_excluded_from_denominator() {
    // A low-priority conffile under a grantable subdir (/etc/app/app.conf) is
    // neither security-relevant nor grant-named: by default it is dropped from
    // the config class entirely (not counted, not listed), so the denominator
    // shrinks to the security-relevant object only. Its parent /etc/app is a
    // grantable subdir (NOT in NON_GRANTABLE_PARENTS), so under
    // --include-low-priority it is a genuine gap — distinct from the
    // backend-limited reclassification a bare /etc file would get.
    let cat =
        FakeCatalog::new().with("linux", file_def("ssh-edit", "/etc/ssh", Access::Rw, true));
    let surface = vec![
        obj(
            SurfaceClass::Config,
            "/etc/ssh/sshd_config",
            Provenance::Vendor,
        ),
        obj(
            SurfaceClass::Config,
            "/etc/app/app.conf",
            Provenance::Vendor,
        ),
    ];

    let r = coverage(&surface, &cat.listing(), &debian(), &[], &ctx()).unwrap();
    // Only the security-relevant object is counted (1/1), the low-priority dropped.
    assert_eq!(class_cov(&r, SurfaceClass::Config).total, 1);
    assert!(r
        .objects
        .iter()
        .all(|o| o.object.key != "/etc/app/app.conf"));

    // With --include-low-priority, the low-priority file is counted (as an
    // uncovered gap), so the denominator grows and coverage drops.
    let r2 = coverage_scoped(&surface, &cat.listing(), &debian(), &[], &ctx(), true).unwrap();
    assert_eq!(class_cov(&r2, SurfaceClass::Config).total, 2);
    let low = find(&r2, "/etc/app/app.conf");
    assert!(!low.covered);
    assert!(low.backend_limited.is_none());
}

#[test]
fn config_denominator_shrinks_vs_all_conffiles() {
    // A realistic mix: one security-relevant config + several inert conffiles.
    // The default config denominator counts only the security-relevant one,
    // demonstrating the narrowed, meaningful metric.
    let cat =
        FakeCatalog::new().with("linux", file_def("ssh-edit", "/etc/ssh", Access::Rw, true));
    let surface = vec![
        obj(
            SurfaceClass::Config,
            "/etc/ssh/sshd_config",
            Provenance::Vendor,
        ),
        obj(SurfaceClass::Config, "/etc/hostname", Provenance::Vendor),
        obj(SurfaceClass::Config, "/etc/hosts", Provenance::Vendor),
        obj(SurfaceClass::Config, "/etc/motd", Provenance::Vendor),
    ];
    let r = coverage(&surface, &cat.listing(), &debian(), &[], &ctx()).unwrap();
    assert_eq!(
        class_cov(&r, SurfaceClass::Config).total,
        1,
        "denominator narrowed to the security-relevant config only"
    );
    assert_eq!(pct(class_cov(&r, SurfaceClass::Config).fraction()), 100.0);
}

#[test]
fn empty_surface_is_full_coverage() {
    // Nothing to cover → 100% (no division by zero).
    let cat = FakeCatalog::new().with("linux", sudo_def("net", &["/usr/sbin/ip"]));
    let r = coverage(&[], &cat.listing(), &debian(), &[], &ctx()).unwrap();
    assert_eq!(pct(r.overall()), 100.0);
    assert!(r.objects.is_empty());
}

// --- reverse lookup: which_grants ---------------------------------------

fn grant_src(id: &str, sudo: &[&str], grants: Vec<ResolvedFileGrant>) -> GrantSource {
    GrantSource {
        id: id.to_owned(),
        target: GrantTarget::Account(id.to_owned()),
        risk: None,
        sudo: sudo.iter().map(|s| s.to_string()).collect(),
        file_grants: grants,
    }
}

/// A group-target source: the same grants, but reached through a `%group`
/// sudoers fragment / `g:group` ACL (every member inherits).
fn group_grant_src(group: &str, sudo: &[&str], grants: Vec<ResolvedFileGrant>) -> GrantSource {
    GrantSource {
        id: group.to_owned(),
        target: GrantTarget::Group(group.to_owned()),
        risk: None,
        sudo: sudo.iter().map(|s| s.to_string()).collect(),
        file_grants: grants,
    }
}

#[test]
fn which_grants_finds_sudo_match_by_binary() {
    // One perm grants /usr/sbin/ip via sudo, one grants /etc/ssh rw via file.
    // which-grants /usr/sbin/ip finds only the sudo one.
    let sources = vec![
        grant_src("network-admin", &["/usr/sbin/ip link set"], vec![]),
        grant_src("ssh-edit", &[], vec![rfg("/etc/ssh", Access::Rw, true)]),
    ];
    let matches = which_grants("/usr/sbin/ip", &sources);
    assert_eq!(matches.len(), 1);
    assert_eq!(matches[0].permission, "network-admin");
    assert_eq!(matches[0].kind, GrantKind::Sudo);
    assert_eq!(matches[0].detail, "/usr/sbin/ip link set");
    assert!(matches[0].access.is_none());
    assert!(matches[0].backend.is_none());
}

#[test]
fn which_grants_finds_file_match_under_recursive_dir() {
    // /etc/ssh/sshd_config is under the recursive /etc/ssh rw grant → file match.
    let sources = vec![
        grant_src("network-admin", &["/usr/sbin/ip link set"], vec![]),
        grant_src("ssh-edit", &[], vec![rfg("/etc/ssh", Access::Rw, true)]),
    ];
    let matches = which_grants("/etc/ssh/sshd_config", &sources);
    assert_eq!(matches.len(), 1);
    assert_eq!(matches[0].permission, "ssh-edit");
    assert_eq!(matches[0].kind, GrantKind::File);
    assert_eq!(matches[0].detail, "/etc/ssh");
    assert_eq!(matches[0].access, Some(Access::Rw));
    assert_eq!(matches[0].recursive, Some(true));
    assert_eq!(matches[0].backend.as_deref(), Some("AclBackend"));
}

#[test]
fn which_grants_non_matching_arg_is_empty() {
    let sources = vec![
        grant_src("network-admin", &["/usr/sbin/ip link set"], vec![]),
        grant_src("ssh-edit", &[], vec![rfg("/etc/ssh", Access::Rw, true)]),
    ];
    assert!(which_grants("/usr/bin/nonexistent", &sources).is_empty());
    // A path neighbour of the recursive grant (textual prefix, not a
    // component-boundary child) does NOT match.
    assert!(which_grants("/etc/sshd_other", &sources).is_empty());
}

#[test]
fn which_grants_full_command_arg_matches_bare_binary() {
    // Passing a full command line reduces to its leading binary token, so it
    // matches the same sudo grant as the bare binary.
    let sources = vec![grant_src("power", &["/sbin/shutdown -r now"], vec![])];
    let matches = which_grants("/sbin/shutdown -h", &sources);
    assert_eq!(matches.len(), 1);
    assert_eq!(matches[0].detail, "/sbin/shutdown -r now");
}

#[test]
fn which_grants_non_recursive_file_matches_only_exact_path() {
    // A non-recursive File grant on /etc/sudoers matches that exact path, not a
    // child path. Its backend note states a per-file-capable backend.
    let sources = vec![grant_src(
        "sudoers-edit",
        &[],
        vec![rfg("/etc/sudoers", Access::Rw, false)],
    )];
    let exact = which_grants("/etc/sudoers", &sources);
    assert_eq!(exact.len(), 1);
    assert_eq!(exact[0].kind, GrantKind::File);
    assert_eq!(
        exact[0].backend.as_deref(),
        Some("per-file-capable backend")
    );
    // A different path under it is not matched by the non-recursive grant.
    assert!(which_grants("/etc/sudoers.d/census", &sources).is_empty());
}

#[test]
fn which_grants_finds_group_sudo_match() {
    // A group-bound sudo grant: which-grants on the command matches with
    // target=Group and the group name (every member inherits via %group).
    let sources = vec![group_grant_src(
        "netops",
        &["/usr/sbin/ip link set"],
        vec![],
    )];
    let matches = which_grants("/usr/sbin/ip", &sources);
    assert_eq!(matches.len(), 1);
    assert_eq!(matches[0].permission, "netops");
    assert_eq!(matches[0].kind, GrantKind::Sudo);
    assert_eq!(matches[0].target, GrantTarget::Group("netops".to_owned()));
    assert_eq!(matches[0].target.group(), Some("netops"));
}

#[test]
fn which_grants_finds_group_file_match_under_recursive_dir() {
    // A path under a group's recursive `g:group` file grant matches with
    // target=Group.
    let sources = vec![group_grant_src(
        "netops",
        &[],
        vec![rfg("/etc/net", Access::Rw, true)],
    )];
    let matches = which_grants("/etc/net/iface.conf", &sources);
    assert_eq!(matches.len(), 1);
    assert_eq!(matches[0].permission, "netops");
    assert_eq!(matches[0].kind, GrantKind::File);
    assert_eq!(matches[0].target, GrantTarget::Group("netops".to_owned()));
    assert_eq!(matches[0].access, Some(Access::Rw));
    assert_eq!(matches[0].recursive, Some(true));
}

#[test]
fn which_grants_account_and_group_sources_coexist() {
    // The same binary granted by both an account permission and a group: both
    // matches surface, each carrying its own target.
    let sources = vec![
        grant_src("network-admin", &["/usr/sbin/ip link"], vec![]),
        group_grant_src("netops", &["/usr/sbin/ip route"], vec![]),
    ];
    let matches = which_grants("/usr/sbin/ip", &sources);
    assert_eq!(matches.len(), 2);
    assert_eq!(
        matches[0].target,
        GrantTarget::Account("network-admin".to_owned())
    );
    assert!(matches[0].target.group().is_none());
    assert_eq!(matches[1].target, GrantTarget::Group("netops".to_owned()));
}

// --- errors, order, edges ---

#[test]
fn an_unreadable_catalog_is_an_error() {
    let listing = CatalogListing::Unreadable("bad header".to_owned());
    let err = coverage(&[], &listing, &debian(), &[], &ctx()).unwrap_err();
    assert!(matches!(err, CoverageError::Catalog(ref r) if r == "bad header"));
    assert!(err.message().contains("bad header"));
}

#[test]
fn the_report_names_its_catalog_and_target() {
    let cat = FakeCatalog::new();
    let r = coverage(&[], &cat.listing(), &debian(), &[], &ctx()).unwrap();
    assert_eq!(r.catalog_version.as_deref(), Some("2026.06"));
    assert_eq!(r.os_target, "linux-debian");
    assert!(r.scan_warnings.is_empty());
    let bare = OsTarget { layers: Vec::new() };
    let r = coverage(&[], &cat.listing(), &bare, &[], &ctx()).unwrap();
    assert_eq!(r.os_target, "");
}

#[test]
fn warnings_name_each_unresolved_permission_once() {
    let cat = FakeCatalog::new()
        .with("linux", includes_def("a", &["ghost"]))
        .with("linux-debian", includes_def("a", &["ghost"]));
    let r = coverage(&[], &cat.listing(), &debian(), &[], &ctx()).unwrap();
    assert_eq!(
        r.catalog_warnings,
        vec!["catalog permission a unresolved: unknown permission ghost"]
    );
}

#[test]
fn a_bound_admin_group_stays_excluded() {
    let cat = FakeCatalog::new();
    let surface = vec![obj(SurfaceClass::Group, "wheel", Provenance::Vendor)];
    let bound = CoverageCtx {
        bound_grant_groups: vec!["wheel".to_owned()],
        ..ctx()
    };
    let r = coverage(&surface, &cat.listing(), &debian(), &[], &bound).unwrap();
    assert!(!find(&r, "wheel").covered);
    assert!(find(&r, "wheel").intentional_exclusion.is_some());
    assert_eq!(class_cov(&r, SurfaceClass::Group).total, 0);
}

#[test]
fn grants_on_one_path_are_folded_together() {
    // A reading and a writing grant on one path add up to a writing one.
    let cat = FakeCatalog::new()
        .with("linux", file_def("a", "/etc/ssh", Access::Ro, true))
        .with("linux", file_def("b", "/etc/ssh", Access::Rw, false));
    let surface = vec![obj(
        SurfaceClass::Config,
        "/etc/ssh/sshd_config",
        Provenance::Vendor,
    )];
    let r = coverage(&surface, &cat.listing(), &debian(), &[], &ctx()).unwrap();
    let c = find(&r, "/etc/ssh/sshd_config");
    assert!(c.covered);
    assert_eq!(c.coverage_note.as_deref(), Some("rw via AclBackend (dir)"));
}

#[test]
fn the_first_of_two_equal_covers_is_named() {
    let grants = vec![
        rfg("/etc", Access::Rw, true),
        rfg("/etc/ssh", Access::Rw, true),
    ];
    let cover = config_grant_cover("/etc/ssh/sshd_config", &grants).unwrap();
    assert_eq!(cover.path, "/etc");
    assert!(config_grant_cover("/var/x", &grants).is_none());
}

#[test]
fn pattern_grants_are_limited_by_the_backend() {
    let role = ResolvedRole::with_file_grants(
        Vec::new(),
        Vec::new(),
        vec![ResolvedFileGrant {
            path: "/etc/ssh/moduli".to_owned(),
            access: Access::Ro,
            recursive: false,
            shape: Shape::Pattern,
        }],
    );
    let surface = vec![obj(
        SurfaceClass::Config,
        "/etc/ssh/moduli",
        Provenance::Vendor,
    )];
    let cat = FakeCatalog::new();
    let r = coverage(&surface, &cat.listing(), &debian(), &[role], &ctx()).unwrap();
    assert_eq!(
        find(&r, "/etc/ssh/moduli").backend_limited.as_deref(),
        Some("declared Pattern grant; requires pattern-capable backend")
    );
}

#[test]
fn names_of_classes_are_stable() {
    let names: Vec<&str> = [
        SurfaceClass::Setuid,
        SurfaceClass::SudoBin,
        SurfaceClass::Config,
        SurfaceClass::Unit,
        SurfaceClass::Group,
        SurfaceClass::CapFile,
    ]
    .iter()
    .map(|c| c.as_str())
    .collect();
    assert_eq!(
        names,
        vec!["setuid", "sudo_bin", "config", "unit", "group", "capfile"]
    );
    assert_eq!(GrantKind::Sudo.as_str(), "sudo");
    assert_eq!(GrantKind::File.as_str(), "file");
}

#[test]
fn systemctl_commands_name_their_unit() {
    assert_eq!(
        service_restart_unit("/usr/bin/systemctl restart app.service").as_deref(),
        Some("app.service")
    );
    assert_eq!(service_restart_unit("systemctl restart"), None);
    assert_eq!(service_restart_unit("/usr/bin/systemctl --now"), None);
    assert_eq!(service_restart_unit("/usr/bin/other restart app"), None);
}

#[test]
fn only_a_config_is_suggested_a_grant_on_its_directory() {
    let config = obj(SurfaceClass::Config, "/etc/ssh/sshd_config", Provenance::Vendor);
    assert_eq!(suggest_permission(&config), None);
    assert_eq!(
        suggest_permission_with_grants(&config).as_deref(),
        Some("file grant rw on /etc/ssh (recursive)")
    );
    let disk = obj(SurfaceClass::Group, "disk", Provenance::Vendor);
    assert_eq!(suggest_permission(&disk).as_deref(), Some("disk-admin"));
    assert_eq!(suggest_permission_with_grants(&disk), suggest_permission(&disk));
}

#[test]
fn an_unresolved_permission_between_others_covers_nothing() {
    let surface = vec![obj(SurfaceClass::Unit, "ssh.service", Provenance::Vendor)];
    let with = FakeCatalog::new()
        .with("linux", sudo_def("power", &["/sbin/shutdown"]))
        .with("linux", includes_def("service-admin", &["ghost"]))
        .with("linux", sudo_def("net", &["/usr/sbin/ip"]));
    let without = FakeCatalog::new()
        .with("linux", sudo_def("power", &["/sbin/shutdown"]))
        .with("linux", sudo_def("net", &["/usr/sbin/ip"]));
    let a = coverage(&surface, &with.listing(), &debian(), &[], &ctx()).unwrap();
    let b = coverage(&surface, &without.listing(), &debian(), &[], &ctx()).unwrap();
    assert_eq!(a.objects, b.objects);
    assert_eq!(a.by_class, b.by_class);
    assert_eq!(a.catalog_warnings.len(), 1);
}
