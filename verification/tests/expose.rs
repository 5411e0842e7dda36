use census::catalog::Access;
use census::exposure::access::{AccessVia, Principal};
use census::exposure::acl::{AclPerms, FakeAclSource};
use census::exposure::expose::{
    expose, exposure_report, valid_baseline_prefix, IntendedBaseline, ManagedContext,
};
use census::exposure::index::{FakeWalker, InodeStat, PermissionIndex, SkippedMount, WalkOutcome};
use census::exposure::reach::Reachability;
use census::exposure::taxonomy::{
    remediation, Classifier, NoManagedContext, RemediationClass, RemediationContext,
};
use census::exposure::ObjectClass;
use census::state::{ManagedAccount, ManagedFileGrant, ManagedGroup, Provenance, Registry};

fn dir(path: &str, gid: u32, mode: u32) -> InodeStat {
    InodeStat {
        path: path.to_owned(),
        uid: 0,
        gid,
        mode: 0o040_000 | mode,
        is_dir: true,
    }
}

fn file(path: &str, gid: u32, mode: u32) -> InodeStat {
    InodeStat {
        path: path.to_owned(),
        uid: 0,
        gid,
        mode: 0o100_000 | mode,
        is_dir: false,
    }
}

/// Build an index + reachability for a tree of canned stats rooted at `/`.
fn index_and_reach(
    stats: Vec<InodeStat>,
    principal: &Principal,
) -> (PermissionIndex, Vec<String>, Reachability) {
    let mut walker = FakeWalker::new();
    for s in stats {
        walker = walker.with(s);
    }
    let mut acl = FakeAclSource::new();
    let roots = vec!["/".to_owned()];
    let index = PermissionIndex::build(&walker, &mut acl, &roots).expect("build");
    let reach = Reachability::compute(&index, principal, &roots);
    (index, roots, reach)
}

fn managed_state_with_grant() -> Registry {
    let mut state = Registry::new();
    state.accounts.insert(
        "svc".to_owned(),
        ManagedAccount {
            name: "svc".to_owned(),
            uid: 5012,
            shell: "/bin/bash".to_owned(),
            groups: vec![],
            file_grants: vec![ManagedFileGrant {
                path: "/etc/ssh".to_owned(),
                access: Access::Rw,
                recursive: true,
            }],
        },
    );
    state
}

/// The standard world-traversable directory chain plus three world-writable
/// targets: one under the granted `/etc/ssh`, one ambient cron spool, one under
/// the principal's home.
fn exposed_tree() -> Vec<InodeStat> {
    vec![
        dir("/", 0, 0o755),
        dir("/etc", 0, 0o755),
        dir("/etc/ssh", 0, 0o755),
        file("/etc/ssh/sshd_config", 0, 0o666), // under grant → intended
        dir("/var", 0, 0o755),
        dir("/var/spool", 0, 0o755),
        dir("/var/spool/cron", 0, 0o755),
        dir("/var/spool/cron/crontabs", 0, 0o755),
        file("/var/spool/cron/crontabs/root", 0, 0o666), // ambient excess
        dir("/home", 0, 0o755),
        dir("/home/svc", 0, 0o755),
        file("/home/svc/.bashrc", 0, 0o666), // under home → intended
    ]
}

#[test]
fn managed_principal_keeps_only_excess_beyond_baseline() {
    // svc is managed with a grant on /etc/ssh and home /home/svc. It writes to all
    // three world-writable targets; the report must keep ONLY /var/spool/cron
    // (the grant path and the home are subtracted as intended).
    let principal = Principal::new("svc", 5012, vec![]).with_home("/home/svc");
    let (index, roots, reach) = index_and_reach(exposed_tree(), &principal);
    let state = managed_state_with_grant();

    let report = exposure_report(&index, &principal, &roots, &reach, &state);
    assert!(report.managed, "svc is in the registry");
    let paths: Vec<&str> = report.findings.iter().map(|f| f.path.as_str()).collect();
    assert_eq!(
        paths,
        vec!["/var/spool/cron/crontabs/root"],
        "only the excess cron access remains; grant + home subtracted"
    );
}

#[test]
fn non_managed_uid_reports_raw_reachability() {
    // An arbitrary uid not in the registry: no baseline, so ALL reachable excess
    // (including what would be under a home/grant for a managed account) is kept.
    let principal = Principal::new("5099", 5099, vec![]).with_home("/home/svc");
    let (index, roots, reach) = index_and_reach(exposed_tree(), &principal);
    let state = Registry::new(); // empty registry → not managed

    let report = exposure_report(&index, &principal, &roots, &reach, &state);
    assert!(!report.managed, "uid 5099 is not in the registry");
    let mut paths: Vec<&str> = report.findings.iter().map(|f| f.path.as_str()).collect();
    paths.sort_unstable();
    assert_eq!(
        paths,
        vec![
            "/etc/ssh/sshd_config",
            "/home/svc/.bashrc",
            "/var/spool/cron/crontabs/root",
        ],
        "no subtraction → all reachable excess reported"
    );
}

#[test]
fn dac_only_note_present_in_report() {
    let principal = Principal::new("5099", 5099, vec![]);
    let (index, roots, reach) = index_and_reach(exposed_tree(), &principal);
    let report = exposure_report(&index, &principal, &roots, &reach, &Registry::new());
    assert!(
        report.dac_only_note.contains("DAC-only"),
        "report carries the DAC-only upper-bound caveat"
    );
    assert!(report.dac_only_note.contains("MAC"));
}

#[test]
fn managed_group_via_is_in_model_foreign_group_is_ambient() {
    // A registry whose managed groups include `app`. A finding granted through a
    // group named `app` is in-model (narrow the declaration); one through a
    // foreign group `staff` is ambient.
    let mut state = Registry::new();
    state.groups.insert(
        "app".to_owned(),
        ManagedGroup {
            name: "app".to_owned(),
            gid: Some(50),
            provenance: Provenance::Created,
            members_added: vec![],
            sudo_commands: vec![],
            adopt_baseline: None,
        },
    );
    let principal = Principal::new("svc", 5012, vec![]);
    let ctx = ManagedContext::for_principal(&state, &principal);

    assert!(ctx.is_managed_group("app"), "app is a managed group");
    assert!(!ctx.is_managed_group("staff"), "staff is foreign");

    // And the remediation classification reflects it.
    let (managed_class, managed_hint) = remediation(
        &AccessVia::Group("app".to_owned()),
        "/srv/app/data",
        ObjectClass::Generic,
        AclPerms {
            read: false,
            write: true,
            execute: false,
        },
        &ctx,
    );
    assert_eq!(managed_class, RemediationClass::InModel);
    assert!(managed_hint.contains("narrow"));

    let (foreign_class, _) = remediation(
        &AccessVia::Group("staff".to_owned()),
        "/srv/data",
        ObjectClass::Generic,
        AclPerms {
            read: false,
            write: true,
            execute: false,
        },
        &ctx,
    );
    assert_eq!(foreign_class, RemediationClass::Ambient);
}

#[test]
fn covering_grant_matches_granted_subtree_only() {
    let state = managed_state_with_grant();
    let principal = Principal::new("svc", 5012, vec![]).with_home("/home/svc");
    let ctx = ManagedContext::for_principal(&state, &principal);
    assert!(ctx.is_managed());
    assert_eq!(
        ctx.covering_grant("/etc/ssh/sshd_config").as_deref(),
        Some("file-access grant on /etc/ssh")
    );
    assert!(ctx.covering_grant("/etc/passwd").is_none());
}

#[test]
fn expose_engine_is_pure_without_subtraction() {
    // The raw engine reports every reachable excess; subtraction is a separate
    // layer (`exposure_report`), so `expose` alone keeps the granted/home paths.
    let principal = Principal::new("svc", 5012, vec![]).with_home("/home/svc");
    let (index, roots, reach) = index_and_reach(exposed_tree(), &principal);
    let ctx = ManagedContext::for_principal(&managed_state_with_grant(), &principal);
    let raw = expose(&index, &principal, &roots, &reach, &ctx);
    assert_eq!(raw.len(), 3, "raw engine does not subtract the baseline");
}

// --- degenerate baseline prefixes ---

fn run_with_home(home: &str) -> Vec<String> {
    // A managed principal whose passwd home is `home`, with a grant on /etc/ssh.
    let principal = Principal::new("svc", 5012, vec![]).with_home(home);
    let (index, roots, reach) = index_and_reach(exposed_tree(), &principal);
    let report = exposure_report(
        &index,
        &principal,
        &roots,
        &reach,
        &managed_state_with_grant(),
    );
    assert!(report.managed);
    report.findings.into_iter().map(|f| f.path).collect()
}

#[test]
fn empty_home_is_not_an_all_covering_baseline() {
    // A passwd entry with an empty home (`svc::…:/bin/bash`) must NOT subtract
    // every finding. The /etc/ssh grant still subtracts its subtree, but the home
    // and cron excess remain — the audit is NOT silently clean.
    let mut paths = run_with_home("");
    paths.sort_unstable();
    assert_eq!(
        paths,
        vec!["/home/svc/.bashrc", "/var/spool/cron/crontabs/root"],
        "empty home must not hide all excess"
    );
}

#[test]
fn root_home_is_not_an_all_covering_baseline() {
    // A daemon home of `/` must likewise not become an all-covering prefix.
    let mut paths = run_with_home("/");
    paths.sort_unstable();
    assert_eq!(
        paths,
        vec!["/home/svc/.bashrc", "/var/spool/cron/crontabs/root"],
        "`/` home must not hide all excess"
    );
}

#[test]
fn degenerate_grant_path_is_not_a_baseline() {
    // A managed account whose recorded grant path is `/` must not subtract
    // everything; with a valid home, only the home subtree is subtracted.
    let mut state = Registry::new();
    state.accounts.insert(
        "svc".to_owned(),
        ManagedAccount {
            name: "svc".to_owned(),
            uid: 5012,
            shell: "/bin/bash".to_owned(),
            groups: vec![],
            file_grants: vec![ManagedFileGrant {
                path: "/".to_owned(), // degenerate
                access: Access::Rw,
                recursive: true,
            }],
        },
    );
    let principal = Principal::new("svc", 5012, vec![]).with_home("/home/svc");
    let (index, roots, reach) = index_and_reach(exposed_tree(), &principal);
    let report = exposure_report(&index, &principal, &roots, &reach, &state);
    let mut paths: Vec<&str> = report.findings.iter().map(|f| f.path.as_str()).collect();
    paths.sort_unstable();
    assert_eq!(
        paths,
        vec!["/etc/ssh/sshd_config", "/var/spool/cron/crontabs/root"],
        "the `/` grant must not subtract everything; only the home subtree is intended"
    );
}

// --- bind precedence, uid collision ---

#[test]
fn name_match_wins_over_uid_collision() {
    // The principal is svc/5012. The registry holds the real `svc` account at a
    // DIFFERENT uid (a uid drift) and an unrelated `daemon` account that happens
    // to own uid 5012. Name precedence must bind `svc`, never the uid-colliding
    // `daemon`, so `daemon`'s foreign baseline is not subtracted.
    let mut state = Registry::new();
    state.accounts.insert(
        "svc".to_owned(),
        ManagedAccount {
            name: "svc".to_owned(),
            uid: 9001, // uid drift vs the principal's 5012
            shell: "/bin/bash".to_owned(),
            groups: vec![],
            file_grants: vec![ManagedFileGrant {
                path: "/etc/svc-area".to_owned(),
                access: Access::Rw,
                recursive: true,
            }],
        },
    );
    state.accounts.insert(
        "daemon".to_owned(),
        ManagedAccount {
            name: "daemon".to_owned(),
            uid: 5012, // collides with the principal's uid
            shell: "/usr/sbin/nologin".to_owned(),
            groups: vec![],
            file_grants: vec![ManagedFileGrant {
                path: "/etc/daemon-area".to_owned(),
                access: Access::Rw,
                recursive: true,
            }],
        },
    );
    let principal = Principal::new("svc", 5012, vec![]);
    let ctx = ManagedContext::for_principal(&state, &principal);
    assert!(ctx.is_managed());
    assert_eq!(
        ctx.covering_grant("/etc/svc-area/x").as_deref(),
        Some("file-access grant on /etc/svc-area"),
        "binds the name-matched account svc"
    );
    assert!(
        ctx.covering_grant("/etc/daemon-area/x").is_none(),
        "must NOT bind the uid-colliding daemon's baseline"
    );
}

// --- grant in-model only via a Census ACL entry ---

#[test]
fn world_writable_under_grant_is_ambient_not_in_model() {
    // A world-writable file UNDER a Census grant: the access comes from the other
    // bits, not the grant's ACL entry. Narrowing the grant would not remove world
    // write, so the source is ambient (chmod), not in-model.
    let ctx = ManagedContext::for_principal(
        &managed_state_with_grant(),
        &Principal::new("svc", 5012, vec![]).with_home("/home/svc"),
    );
    let (ambient_class, ambient_hint) = remediation(
        &AccessVia::OtherBits,
        "/etc/ssh/sshd_config", // under the /etc/ssh grant
        ObjectClass::Config,
        AclPerms {
            read: false,
            write: true,
            execute: false,
        },
        &ctx,
    );
    assert_eq!(
        ambient_class,
        RemediationClass::Ambient,
        "world-write under a grant is ambient, not in-model"
    );
    assert!(ambient_hint.contains("chmod o-w"), "hint: {ambient_hint}");

    // The dual: the SAME path reached through the grant's own ACL user entry IS
    // in-model (narrow the grant).
    let (acl_class, acl_hint) = remediation(
        &AccessVia::AclUser("svc".to_owned()),
        "/etc/ssh/sshd_config",
        ObjectClass::Config,
        AclPerms {
            read: true,
            write: true,
            execute: false,
        },
        &ctx,
    );
    assert_eq!(acl_class, RemediationClass::InModel);
    assert!(acl_hint.contains("file-access grant"), "hint: {acl_hint}");
}

#[test]
fn reports_carry_the_skipped_mounts_and_the_principal() {
    let principal = Principal::new("5099", 5099, vec![]);
    let outcome = WalkOutcome {
        stats: exposed_tree(),
        skipped_mounts: vec![SkippedMount {
            path: "/mnt/share".to_owned(),
            fstype: "nfs4".to_owned(),
        }],
    };
    let index = PermissionIndex::assemble(outcome, Vec::new(), &Classifier::default());
    let roots = vec!["/".to_owned()];
    let reach = Reachability::compute(&index, &principal, &roots);
    let report = exposure_report(&index, &principal, &roots, &reach, &Registry::new());
    assert_eq!(report.principal, "5099");
    assert_eq!(report.skipped_mounts.len(), 1);
    assert_eq!(report.skipped_mounts[0].fstype, "nfs4");
}

#[test]
fn findings_keep_to_the_roots() {
    let principal = Principal::new("5099", 5099, vec![]);
    let (index, _, _) = index_and_reach(exposed_tree(), &principal);
    let roots = vec!["/etc".to_owned()];
    let reach = Reachability::compute(&index, &principal, &roots);
    let found = expose(&index, &principal, &roots, &reach, &NoManagedContext);
    let paths: Vec<&str> = found.iter().map(|f| f.path.as_str()).collect();
    assert_eq!(paths, vec!["/etc/ssh/sshd_config"]);
}

#[test]
fn a_grant_without_recursion_covers_one_path() {
    let mut state = managed_state_with_grant();
    state.accounts.insert(
        "svc".to_owned(),
        ManagedAccount {
            name: "svc".to_owned(),
            uid: 5012,
            shell: "/bin/bash".to_owned(),
            groups: vec![],
            file_grants: vec![ManagedFileGrant {
                path: "/etc/ssh/".to_owned(),
                access: Access::Rw,
                recursive: false,
            }],
        },
    );
    let ctx = ManagedContext::for_principal(&state, &Principal::new("svc", 5012, vec![]));
    assert!(ctx.baseline().covers("/etc/ssh"));
    assert!(!ctx.baseline().covers("/etc/ssh/sshd_config"));
    assert!(!ctx.baseline().covers("/etc/sshd"));
}

#[test]
fn degenerate_prefixes_are_refused() {
    assert_eq!(valid_baseline_prefix(""), None);
    assert_eq!(valid_baseline_prefix("///"), None);
    assert_eq!(valid_baseline_prefix("home/svc"), None);
    assert_eq!(valid_baseline_prefix("/home/svc//").as_deref(), Some("/home/svc"));
    assert!(IntendedBaseline::new().is_empty());
}

#[test]
fn the_global_context_manages_groups_only() {
    let mut state = managed_state_with_grant();
    state.groups.insert(
        "app".to_owned(),
        ManagedGroup {
            name: "app".to_owned(),
            gid: None,
            provenance: Provenance::Adopted,
            members_added: vec![],
            sudo_commands: vec![],
            adopt_baseline: None,
        },
    );
    let ctx = ManagedContext::global(&state);
    assert!(!ctx.is_managed());
    assert!(ctx.is_managed_group("app"));
    assert!(ctx.covering_grant("/etc/ssh/sshd_config").is_none());
    assert!(ctx.baseline().is_empty());
}

#[test]
fn uid_binds_where_no_name_does() {
    let ctx = ManagedContext::for_principal(
        &managed_state_with_grant(),
        &Principal::new("renamed", 5012, vec![]),
    );
    assert!(ctx.is_managed());
}
