use census::catalog::Access;
use census::doctor::{
    framework_findings, framework_load_warning, run_doctor, DoctorReport, Finding, FrameworkLint,
    FrameworkLintSeverity, Severity, CHECK_ADOPTED_GROUP_DRIFT, CHECK_ANTILOCKOUT, CHECK_DRIFT,
    CHECK_FILE_ACCESS_DRIFT, CHECK_GROUP_REGISTRY, CHECK_REGISTRY, CHECK_SHADOW_UNREADABLE,
    CHECK_UNREACHABLE,
};
use census::inspect::{AccountFacts, FileAclFact, GroupFacts, HostFacts};
use census::plan::{Action, Plan};
use census::state::{
    GroupBaseline, ManagedAccount, ManagedFileGrant, ManagedGroup, Provenance, Registry,
};

fn managed_acct(name: &str, uid: u32, shell: &str, groups: &[&str]) -> ManagedAccount {
    ManagedAccount {
        name: name.to_owned(),
        uid,
        shell: shell.to_owned(),
        groups: groups.iter().map(|g| g.to_string()).collect(),
        file_grants: Vec::new(),
    }
}

fn state_of(accts: Vec<ManagedAccount>) -> Registry {
    state_with_group(accts, Vec::new())
}

fn facts(uid: u32, shell: &str, groups: &[&str]) -> AccountFacts {
    AccountFacts {
        uid,
        shell: shell.to_owned(),
        home: "/var/lib/census/home/oper".to_owned(),
        groups: groups.iter().map(|g| g.to_string()).collect(),
    }
}

/// Inspector for a single fully-healthy managed account `oper`, plus a
/// rescue account so anti-lockout does not fire.
fn healthy_inspector() -> HostFacts {
    let mut f = HostFacts::new();
    f.accounts
        .insert("oper".into(), facts(9010, "/bin/bash", &["wheel"]));
    f.locked.insert("oper".into(), true);
    f.login_capable.push("rescue".into());
    f
}

#[test]
fn clean_system_has_no_findings() {
    let st = state_of(vec![managed_acct("oper", 9010, "/bin/bash", &["wheel"])]);
    let report = run_doctor(&st, &healthy_inspector(), None);
    assert!(
        report.findings.is_empty(),
        "clean system: {:?}",
        report.findings
    );
    assert!(!report.has_errors());
}

// ---- registry integrity ----

#[test]
fn registry_entry_without_live_account_is_error() {
    let st = state_of(vec![managed_acct("oper", 9010, "/bin/bash", &["wheel"])]);
    let mut insp = HostFacts::new();
    insp.login_capable.push("rescue".into()); // suppress anti-lockout
    let report = run_doctor(&st, &insp, None);
    assert!(report.has_errors());
    assert!(report
        .findings
        .iter()
        .any(|f| f.check == CHECK_REGISTRY && f.message.contains("vanished")));
}

#[test]
fn spoofed_gecos_marker_not_in_registry_is_error() {
    let st = state_of(vec![]); // empty registry
    let mut insp = HostFacts::new();
    insp.marked.push("intruder".into());
    insp.login_capable.push("rescue".into());
    let report = run_doctor(&st, &insp, None);
    assert!(report.has_errors());
    let f = report
        .findings
        .iter()
        .find(|f| f.check == CHECK_REGISTRY && f.target == "intruder")
        .expect("spoof finding");
    assert!(f.message.contains("spoof"));
}

#[test]
fn marked_account_in_registry_is_not_flagged() {
    let st = state_of(vec![managed_acct("oper", 9010, "/bin/bash", &["wheel"])]);
    let mut insp = healthy_inspector();
    insp.marked.push("oper".into()); // marked AND in registry → fine
    let report = run_doctor(&st, &insp, None);
    assert!(!report.has_errors(), "{:?}", report.findings);
}

#[test]
fn uid_mismatch_is_error() {
    let st = state_of(vec![managed_acct("oper", 9010, "/bin/bash", &["wheel"])]);
    let mut insp = healthy_inspector();
    insp.accounts
        .insert("oper".into(), facts(9999, "/bin/bash", &["wheel"]));
    let report = run_doctor(&st, &insp, None);
    assert!(report.has_errors());
    assert!(report
        .findings
        .iter()
        .any(|f| f.check == CHECK_REGISTRY && f.message.contains("uid")));
}

#[test]
fn shell_and_group_drift_is_error() {
    let st = state_of(vec![managed_acct("oper", 9010, "/bin/bash", &["wheel"])]);
    let mut insp = healthy_inspector();
    insp.accounts
        .insert("oper".into(), facts(9010, "/bin/zsh", &["wheel", "docker"]));
    let report = run_doctor(&st, &insp, None);
    let f = report
        .findings
        .iter()
        .find(|f| f.check == CHECK_REGISTRY && f.target == "oper")
        .expect("drift finding");
    assert!(f.message.contains("shell"));
    assert!(f.message.contains("groups"));
}

#[test]
fn group_order_does_not_trigger_registry_drift() {
    let st = state_of(vec![managed_acct(
        "oper",
        9010,
        "/bin/bash",
        &["wheel", "docker"],
    )]);
    let mut insp = healthy_inspector();
    insp.accounts.insert(
        "oper".into(),
        facts(9010, "/bin/bash", &["docker", "wheel"]),
    );
    let report = run_doctor(&st, &insp, None);
    assert!(
        !report.findings.iter().any(|f| f.check == CHECK_REGISTRY),
        "group order must not be a diff: {:?}",
        report.findings
    );
}

// ---- managed-group integrity ----


fn state_with_group(accts: Vec<ManagedAccount>, groups: Vec<ManagedGroup>) -> Registry {
    let mut registry = Registry::new();
    for a in accts {
        registry.accounts.insert(a.name.clone(), a);
    }
    for g in groups {
        registry.groups.insert(g.name.clone(), g);
    }
    registry
}

fn mgroup(name: &str, gid: u32) -> ManagedGroup {
    ManagedGroup {
        name: name.to_owned(),
        gid: Some(gid),
        provenance: Provenance::Created,
        members_added: Vec::new(),
        sudo_commands: Vec::new(),
        adopt_baseline: None,
    }
}

#[test]
fn managed_group_present_and_matching_is_clean() {
    let st = state_with_group(
        vec![managed_acct("oper", 9010, "/bin/bash", &["wheel"])],
        vec![mgroup("atm-operators", 8010)],
    );
    let mut insp = healthy_inspector();
    insp.groups
        .insert("atm-operators".into(), GroupFacts { gid: 8010 });
    let report = run_doctor(&st, &insp, None);
    assert!(
        !report
            .findings
            .iter()
            .any(|f| f.check == CHECK_GROUP_REGISTRY),
        "matching managed group must be clean: {:?}",
        report.findings
    );
}

#[test]
fn managed_group_missing_from_system_is_error() {
    let st = state_with_group(
        vec![managed_acct("oper", 9010, "/bin/bash", &["wheel"])],
        vec![mgroup("atm-operators", 8010)],
    );
    // Inspector has NO atm-operators group → vanished.
    let insp = healthy_inspector();
    let report = run_doctor(&st, &insp, None);
    assert!(report.has_errors());
    let f = report
        .findings
        .iter()
        .find(|f| f.check == CHECK_GROUP_REGISTRY && f.target == "atm-operators")
        .expect("vanished group finding");
    assert!(f.message.contains("vanished"));
}

#[test]
fn managed_group_gid_drift_is_error() {
    let st = state_with_group(
        vec![managed_acct("oper", 9010, "/bin/bash", &["wheel"])],
        vec![mgroup("atm-operators", 8010)],
    );
    let mut insp = healthy_inspector();
    insp.groups
        .insert("atm-operators".into(), GroupFacts { gid: 8099 });
    let report = run_doctor(&st, &insp, None);
    assert!(report.has_errors());
    let f = report
        .findings
        .iter()
        .find(|f| f.check == CHECK_GROUP_REGISTRY && f.target == "atm-operators")
        .expect("gid drift finding");
    assert!(f.message.contains("gid"));
}

// ---- adopted-group baseline drift (Warn) ----

/// An adopted managed group with a recorded baseline and (optionally) our own
/// grants/members. `record.gid` equals the baseline gid (observed at adopt).
fn adopted_mgroup(
    name: &str,
    gid: u32,
    members_added: &[&str],
    sudo_commands: &[&str],
) -> ManagedGroup {
    ManagedGroup {
        name: name.to_owned(),
        gid: Some(gid),
        provenance: Provenance::Adopted,
        members_added: members_added.iter().map(|m| m.to_string()).collect(),
        sudo_commands: sudo_commands.iter().map(|c| c.to_string()).collect(),
        adopt_baseline: Some(GroupBaseline { gid: Some(gid) }),
    }
}

#[test]
fn adopted_group_in_sync_has_no_drift_finding() {
    let st = state_with_group(
        vec![managed_acct("oper", 9010, "/bin/bash", &["wheel"])],
        vec![adopted_mgroup(
            "wheel",
            10,
            &["oper"],
            &["/usr/sbin/ip"],
        )],
    );
    let mut insp = healthy_inspector();
    insp.groups.insert("wheel".into(), GroupFacts { gid: 10 });
    insp.group_members
        .insert("wheel".into(), vec!["root".into(), "oper".into()]);
    insp.group_sudoers_fragments.insert("wheel".into(), true);
    let report = run_doctor(&st, &insp, None);
    assert!(
        !report
            .findings
            .iter()
            .any(|f| f.check == CHECK_ADOPTED_GROUP_DRIFT),
        "in-sync adopted group must have no drift finding: {:?}",
        report.findings
    );
    // And no false GID Error (the Created-only gid check must not fire here).
    assert!(
        !report
            .findings
            .iter()
            .any(|f| f.check == CHECK_GROUP_REGISTRY && f.target == "wheel"),
        "adopted group must not trip the Created gid Error: {:?}",
        report.findings
    );
}

#[test]
fn adopted_group_gid_drift_is_warn_not_error() {
    let st = state_with_group(
        vec![managed_acct("oper", 9010, "/bin/bash", &["wheel"])],
        vec![adopted_mgroup("wheel", 10, &[], &[])],
    );
    let mut insp = healthy_inspector();
    // Live gid diverged from the adopt baseline (10 → 12).
    insp.groups.insert("wheel".into(), GroupFacts { gid: 12 });
    insp.group_members
        .insert("wheel".into(), vec!["root".into()]);
    let report = run_doctor(&st, &insp, None);
    let f = report
        .findings
        .iter()
        .find(|f| f.check == CHECK_ADOPTED_GROUP_DRIFT && f.target == "wheel")
        .expect("adopted gid drift finding");
    assert_eq!(f.severity, Severity::Warn, "adopted gid drift is advisory");
    assert!(f.message.contains("gid"));
    // It must NOT also be reported as a Created-group integrity Error.
    assert!(
        !report
            .findings
            .iter()
            .any(|f| f.check == CHECK_GROUP_REGISTRY
                && f.target == "wheel"
                && f.severity == Severity::Error),
        "adopted gid drift must not double-report as a Created Error: {:?}",
        report.findings
    );
}

#[test]
fn adopted_group_missing_fragment_is_warn() {
    let st = state_with_group(
        vec![managed_acct("oper", 9010, "/bin/bash", &["wheel"])],
        // Registry records group sudo commands, so a missing fragment is drift.
        vec![adopted_mgroup(
            "wheel",
            10,
            &[],
            &["/usr/sbin/ip"],
        )],
    );
    let mut insp = healthy_inspector();
    insp.groups.insert("wheel".into(), GroupFacts { gid: 10 });
    insp.group_members
        .insert("wheel".into(), vec!["root".into()]);
    insp.group_sudoers_fragments.insert("wheel".into(), false); // removed out of band
    let report = run_doctor(&st, &insp, None);
    let f = report
        .findings
        .iter()
        .find(|f| f.check == CHECK_ADOPTED_GROUP_DRIFT && f.message.contains("fragment"))
        .expect("missing-fragment drift finding");
    assert_eq!(f.severity, Severity::Warn);
    assert!(f.message.contains("census-grp-wheel"));
}

#[test]
fn adopted_group_dropped_member_is_warn() {
    let st = state_with_group(
        vec![managed_acct("oper", 9010, "/bin/bash", &["wheel"])],
        // We added `oper`; baseline (foreign) member is `root`.
        vec![adopted_mgroup("wheel", 10, &["oper"], &[])],
    );
    let mut insp = healthy_inspector();
    insp.groups.insert("wheel".into(), GroupFacts { gid: 10 });
    // Live group lists only the foreign member — our `oper` was dropped.
    insp.group_members
        .insert("wheel".into(), vec!["root".into()]);
    let report = run_doctor(&st, &insp, None);
    let f = report
        .findings
        .iter()
        .find(|f| f.check == CHECK_ADOPTED_GROUP_DRIFT && f.message.contains("oper"))
        .expect("dropped-member drift finding");
    assert_eq!(f.severity, Severity::Warn);
    assert!(f.message.contains("no longer in"));
}

#[test]
fn created_group_with_missing_fragment_yields_no_adopted_drift() {
    // The adopted-drift check is scoped to Adopted groups: a Created group
    // (no baseline) must never produce an adopted-drift finding even if its
    // fragment seam reports absent.
    let st = state_with_group(
        vec![managed_acct("oper", 9010, "/bin/bash", &["wheel"])],
        vec![mgroup("atm-operators", 8010)],
    );
    let mut insp = healthy_inspector();
    insp.groups
        .insert("atm-operators".into(), GroupFacts { gid: 8010 });
    insp.group_sudoers_fragments
        .insert("atm-operators".into(), false);
    let report = run_doctor(&st, &insp, None);
    assert!(
        !report
            .findings
            .iter()
            .any(|f| f.check == CHECK_ADOPTED_GROUP_DRIFT),
        "created group must not produce adopted-drift findings: {:?}",
        report.findings
    );
}

// ---- unreachability ----

#[test]
fn unlocked_password_is_error() {
    let st = state_of(vec![managed_acct("oper", 9010, "/bin/bash", &["wheel"])]);
    let mut insp = healthy_inspector();
    insp.locked.insert("oper".into(), false);
    let report = run_doctor(&st, &insp, None);
    assert!(report.has_errors());
    assert!(report
        .findings
        .iter()
        .any(|f| f.check == CHECK_UNREACHABLE && f.message.contains("NOT locked")));
}

#[test]
fn missing_shadow_entry_is_error() {
    let st = state_of(vec![managed_acct("oper", 9010, "/bin/bash", &["wheel"])]);
    let mut insp = healthy_inspector();
    insp.locked.remove("oper"); // no shadow info → None
    let report = run_doctor(&st, &insp, None);
    assert!(report.has_errors());
    assert!(report
        .findings
        .iter()
        .any(|f| f.check == CHECK_UNREACHABLE && f.message.contains("shadow")));
}

#[test]
fn authorized_keys_present_is_error() {
    let st = state_of(vec![managed_acct("oper", 9010, "/bin/bash", &["wheel"])]);
    let mut insp = healthy_inspector();
    insp.authorized_keys.push("oper".into());
    let report = run_doctor(&st, &insp, None);
    assert!(report.has_errors());
    assert!(report
        .findings
        .iter()
        .any(|f| f.check == CHECK_UNREACHABLE && f.message.contains("authorized_keys")));
}

#[test]
fn locked_password_no_keys_is_clean_for_unreachability() {
    let st = state_of(vec![managed_acct("oper", 9010, "/bin/bash", &["wheel"])]);
    let report = run_doctor(&st, &healthy_inspector(), None);
    assert!(
        !report.findings.iter().any(|f| f.check == CHECK_UNREACHABLE),
        "{:?}",
        report.findings
    );
}

// ---- anti-lockout ----

#[test]
fn no_rescue_account_warns_but_no_error() {
    let st = state_of(vec![managed_acct("oper", 9010, "/bin/bash", &["wheel"])]);
    let mut insp = healthy_inspector();
    insp.login_capable.clear(); // no rescue at all
    let report = run_doctor(&st, &insp, None);
    assert!(!report.has_errors(), "anti-lockout is a warning only");
    let f = report
        .findings
        .iter()
        .find(|f| f.check == CHECK_ANTILOCKOUT)
        .expect("anti-lockout warning");
    assert_eq!(f.severity, Severity::Warn);
}

#[test]
fn unreadable_shadow_degrades_to_distinct_finding_not_false_warns() {
    // Model a non-root run: shadow is unreadable. The managed account `oper`
    // has a login shell and no authorized_keys. Doctor must NOT fire a false
    // "no rescue" Warn nor a "shadow absent" Error per account; instead
    // it emits the single distinct cannot-evaluate advisory.
    let st = state_of(vec![managed_acct("oper", 9010, "/bin/bash", &["wheel"])]);
    let mut insp = HostFacts::new();
    insp.accounts
        .insert("oper".into(), facts(9010, "/bin/bash", &["wheel"]));
    insp.shadow_unreadable = true; // getent shadow fails (non-root)
                                   // A login-capable account exists but its lock state is unknowable.
    insp.login_capable.push("rescue".into());

    let report = run_doctor(&st, &insp, None);

    // The distinct degraded finding is present, as a Warn (never an Error).
    let degraded = report
        .findings
        .iter()
        .find(|f| f.check == CHECK_SHADOW_UNREADABLE)
        .expect("degraded shadow-read advisory");
    assert_eq!(degraded.severity, Severity::Warn);

    // No false per-account password Error (we could not evaluate it).
    assert!(
        !report
            .findings
            .iter()
            .any(|f| f.check == CHECK_UNREACHABLE && f.message.contains("password")),
        "degraded read must not produce a false password Error: {:?}",
        report.findings
    );
    assert!(
        !report
            .findings
            .iter()
            .any(|f| f.check == CHECK_UNREACHABLE && f.message.contains("shadow")),
        "degraded read must not produce a per-account shadow-absent Error: {:?}",
        report.findings
    );

    // And the degraded read must NOT be a hard Error (doctor still exits 0 for
    // this advisory alone — a non-root informational run).
    assert!(
        !report.has_errors(),
        "degraded shadow read alone must not fail the exit code: {:?}",
        report.findings
    );
}

#[test]
fn unreadable_shadow_still_flags_authorized_keys() {
    // authorized_keys detection does not depend on shadow, so a keys Error
    // must still fire even when shadow is unreadable.
    let st = state_of(vec![managed_acct("oper", 9010, "/bin/bash", &["wheel"])]);
    let mut insp = HostFacts::new();
    insp.accounts
        .insert("oper".into(), facts(9010, "/bin/bash", &["wheel"]));
    insp.shadow_unreadable = true;
    insp.authorized_keys.push("oper".into());
    let report = run_doctor(&st, &insp, None);
    assert!(report
        .findings
        .iter()
        .any(|f| f.check == CHECK_UNREACHABLE && f.message.contains("authorized_keys")));
    assert!(
        report.has_errors(),
        "authorized_keys is a Error regardless of shadow"
    );
}

#[test]
fn rescue_present_no_antilockout_warning() {
    let st = state_of(vec![managed_acct("oper", 9010, "/bin/bash", &["wheel"])]);
    let report = run_doctor(&st, &healthy_inspector(), None);
    assert!(!report.findings.iter().any(|f| f.check == CHECK_ANTILOCKOUT));
}

// ---- drift ----

#[test]
fn drift_against_declaration_warns() {
    // Registry has oper@9010; declaration target wants groups [wheel,docker] → update drift.
    let st = state_of(vec![managed_acct("oper", 9010, "/bin/bash", &["wheel"])]);
    let plan = Plan {
        actions: vec![Action::Update {
            name: "oper".to_owned(),
        }],
    };
    let report = run_doctor(&st, &healthy_inspector(), Some(&plan));
    let f = report
        .findings
        .iter()
        .find(|f| f.check == CHECK_DRIFT)
        .expect("drift warning");
    assert_eq!(f.severity, Severity::Warn);
    assert!(f.message.contains("update(s)"));
    assert!(!report.has_errors(), "drift alone must not be an error");
}

#[test]
fn no_drift_when_in_sync() {
    let st = state_of(vec![managed_acct("oper", 9010, "/bin/bash", &["wheel"])]);
    let plan = Plan {
        actions: Vec::new(),
    };
    let report = run_doctor(&st, &healthy_inspector(), Some(&plan));
    assert!(!report.findings.iter().any(|f| f.check == CHECK_DRIFT));
}

// ---- file-access drift ----


fn managed_acct_with_grant(name: &str, path: &str) -> ManagedAccount {
    ManagedAccount {
        file_grants: vec![ManagedFileGrant {
            path: path.to_owned(),
            access: Access::Rw,
            recursive: true,
        }],
        ..managed_acct(name, 9010, "/bin/bash", &["wheel"])
    }
}

#[test]
fn file_access_grant_present_no_finding() {
    let st = state_of(vec![managed_acct_with_grant("oper", "/etc/ssh")]);
    let mut insp = healthy_inspector();
    // ACL entry present on the path for the account.
    insp.file_acls.push(FileAclFact {
        path: "/etc/ssh".to_owned(),
        account: "oper".to_owned(),
        present: true,
    });
    let report = run_doctor(&st, &insp, None);
    assert!(
        !report
            .findings
            .iter()
            .any(|f| f.check == CHECK_FILE_ACCESS_DRIFT),
        "present ACL must not drift: {:?}",
        report.findings
    );
}

#[test]
fn file_access_grant_missing_is_warn() {
    let st = state_of(vec![managed_acct_with_grant("oper", "/etc/ssh")]);
    let mut insp = healthy_inspector();
    // Path readable but the account's ACL entry is gone → drift.
    insp.file_acls.push(FileAclFact {
        path: "/etc/ssh".to_owned(),
        account: "oper".to_owned(),
        present: false,
    });
    let report = run_doctor(&st, &insp, None);
    let f = report
        .findings
        .iter()
        .find(|f| f.check == CHECK_FILE_ACCESS_DRIFT)
        .expect("file-access drift warning");
    assert_eq!(f.severity, Severity::Warn);
    assert!(f.message.contains("/etc/ssh"));
    assert!(
        !report.has_errors(),
        "file-access drift is a warning, never an error"
    );
}

#[test]
fn file_access_indeterminate_is_not_a_finding() {
    // No `file_acls` entry → inspector returns None (cannot verify). Best-effort
    // means we do NOT claim drift we could not confirm.
    let st = state_of(vec![managed_acct_with_grant("oper", "/etc/ssh")]);
    let report = run_doctor(&st, &healthy_inspector(), None);
    assert!(
        !report
            .findings
            .iter()
            .any(|f| f.check == CHECK_FILE_ACCESS_DRIFT),
        "indeterminate ACL must not be a finding: {:?}",
        report.findings
    );
}

#[test]
fn has_errors_reflects_severity() {
    let mut r = DoctorReport::default();
    assert!(!r.has_errors());
    r.findings.push(Finding {
        severity: Severity::Warn,
        check: "x",
        target: "t".into(),
        message: "m".into(),
    });
    assert!(!r.has_errors(), "warnings alone are not errors");
    r.findings.push(Finding {
        severity: Severity::Error,
        check: "y",
        target: "t".into(),
        message: "m".into(),
    });
    assert!(r.has_errors());
}

#[test]
fn empty_registry_with_rescue_is_clean() {
    let st = Registry::new();
    let mut insp = HostFacts::new();
    insp.login_capable.push("root".into());
    let report = run_doctor(&st, &insp, None);
    assert!(report.findings.is_empty(), "{:?}", report.findings);
}

#[test]
fn framework_findings_map_both_severities_to_warn() {
    let lints = vec![
        FrameworkLint {
            code: "orphaned-mapping",
            severity: FrameworkLintSeverity::Warning,
            message: "orphan".into(),
        },
        FrameworkLint {
            code: "id-collision",
            severity: FrameworkLintSeverity::Error,
            message: "collision".into(),
        },
    ];
    let findings = framework_findings(&lints);
    assert_eq!(findings.len(), 2);
    for f in &findings {
        assert_eq!(f.severity, Severity::Warn);
        assert_eq!(f.check, "framework-integrity");
    }
    assert!(findings[0].message.contains("orphaned-mapping"));
    assert!(findings[1].message.contains("id-collision"));
}

#[test]
fn framework_error_lint_does_not_flip_doctor_exit() {
    let lints = vec![FrameworkLint {
        code: "id-collision",
        severity: FrameworkLintSeverity::Error,
        message: "collision".into(),
    }];
    let mut report = DoctorReport::default();
    report.findings.extend(framework_findings(&lints));
    assert!(
        !report.has_errors(),
        "framework findings are Warn, never errors"
    );
}

#[test]
fn framework_load_warning_is_warn_integrity() {
    let f = framework_load_warning("framework future skipped: unknown dimension");
    assert_eq!(f.severity, Severity::Warn);
    assert_eq!(f.check, "framework-integrity");
    assert!(f.message.contains("unknown dimension"));
}

// ---- wording and laws ----

#[test]
fn severities_have_tags() {
    assert_eq!(Severity::Error.tag(), "ERROR");
    assert_eq!(Severity::Warn.tag(), "WARN");
}

#[test]
fn registry_drift_names_every_difference() {
    let st = state_of(vec![managed_acct("oper", 9010, "/bin/bash", &["wheel"])]);
    let mut insp = healthy_inspector();
    insp.accounts
        .insert("oper".into(), facts(9011, "/bin/sh", &["wheel", "a\"b"]));
    let report = run_doctor(&st, &insp, None);
    let f = &report.findings[0];
    assert_eq!(
        f.message,
        "live account differs from registry: uid 9011 != registry 9010; \
         shell \"/bin/sh\" != registry \"/bin/bash\"; \
         groups [\"wheel\", \"a\\\"b\"] != registry [\"wheel\"]"
    );
}

#[test]
fn repeated_groups_are_counted() {
    let st = state_of(vec![managed_acct("oper", 9010, "/bin/bash", &["a", "b", "b"])]);
    let mut insp = healthy_inspector();
    insp.accounts
        .insert("oper".into(), facts(9010, "/bin/bash", &["a", "a", "b"]));
    assert!(run_doctor(&st, &insp, None).has_errors());
    insp.accounts
        .insert("oper".into(), facts(9010, "/bin/bash", &["b", "a", "b"]));
    assert!(run_doctor(&st, &insp, None).findings.is_empty());
}

#[test]
fn drift_counts_each_kind_of_action() {
    let st = state_of(vec![managed_acct("oper", 9010, "/bin/bash", &["wheel"])]);
    let plan = Plan {
        actions: vec![
            Action::Create("a".to_owned()),
            Action::Create("b".to_owned()),
            Action::Update {
                name: "oper".to_owned(),
            },
            Action::Delete {
                name: "old".to_owned(),
            },
        ],
    };
    let report = run_doctor(&st, &healthy_inspector(), Some(&plan));
    assert_eq!(report.findings.len(), 1);
    let f = &report.findings[0];
    assert_eq!(f.check, CHECK_DRIFT);
    assert_eq!(f.target, "<declaration>");
    assert_eq!(
        f.message,
        "declaration drift: 2 create(s), 1 update(s), 1 delete(s)"
    );
    assert!(!report.has_errors());
}

#[test]
fn unreadable_shadow_without_accounts_is_one_advisory() {
    let mut insp = HostFacts::new();
    insp.shadow_unreadable = true;
    let report = run_doctor(&Registry::new(), &insp, None);
    assert_eq!(report.findings.len(), 1);
    assert_eq!(report.findings[0].check, CHECK_SHADOW_UNREADABLE);
    assert!(report.findings[0].message.contains("anti-lockout"));
    assert!(!report.has_errors());
}

#[test]
fn unreadable_members_are_no_drift() {
    // No member list was read: nothing can be said of the members.
    let st = state_with_group(
        vec![managed_acct("oper", 9010, "/bin/bash", &["wheel"])],
        vec![adopted_mgroup("wheel", 10, &["oper"], &[])],
    );
    let mut insp = healthy_inspector();
    insp.groups.insert("wheel".into(), GroupFacts { gid: 10 });
    assert!(run_doctor(&st, &insp, None).findings.is_empty());
}

#[test]
fn missing_account_is_both_vanished_and_unverifiable() {
    let st = state_of(vec![managed_acct("oper", 9010, "/bin/bash", &["wheel"])]);
    let mut insp = HostFacts::new();
    insp.login_capable.push("rescue".into());
    let report = run_doctor(&st, &insp, None);
    assert_eq!(report.findings.len(), 2);
    assert_eq!(report.findings[0].check, CHECK_REGISTRY);
    assert_eq!(report.findings[1].check, CHECK_UNREACHABLE);
    assert!(report.findings[1].message.contains("missing"));
}
