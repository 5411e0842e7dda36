use census::catalog::Access;
use census::exposure::access::{AccessVia, Principal};
use census::exposure::acl::AclPerms;
use census::exposure::expose::ManagedContext;
use census::exposure::glob::glob_match;
use census::exposure::index::InodeRecord;
use census::exposure::taxonomy::{
    classify_object, classify_path_mode, derive_risk, derive_severity, finding_for, remediation,
    NoManagedContext, RemediationClass, Risk, Severity,
};
use census::exposure::ObjectClass;
use census::state::{ManagedAccount, ManagedFileGrant, ManagedGroup, Provenance, Registry};

fn record(path: &str, mode: u32) -> InodeRecord {
    InodeRecord {
        path: path.to_owned(),
        uid: 0,
        gid: 0,
        mode,
        acl: None,
        // The index stores the classified class; mirror that so `finding_for`
        // (which trusts `record.class`) sees the right class in tests.
        class: classify_path_mode(path, mode),
    }
}

fn rwx(r: bool, w: bool, x: bool) -> AclPerms {
    AclPerms {
        read: r,
        write: w,
        execute: x,
    }
}

/// The context of a registry with these managed groups, for an account that was granted
/// these paths.
fn context(groups: &[&str], granted: &[&str]) -> ManagedContext {
    let mut registry = Registry::new();
    for g in groups {
        registry.groups.insert(
            g.to_string(),
            ManagedGroup {
                name: g.to_string(),
                gid: None,
                provenance: Provenance::Created,
                members_added: Vec::new(),
                sudo_commands: Vec::new(),
                adopt_baseline: None,
            },
        );
    }
    registry.accounts.insert(
        "role-x".to_owned(),
        ManagedAccount {
            name: "role-x".to_owned(),
            uid: 5012,
            shell: "/bin/sh".to_owned(),
            groups: Vec::new(),
            file_grants: granted
                .iter()
                .map(|p| ManagedFileGrant {
                    path: p.to_string(),
                    access: Access::Rw,
                    recursive: true,
                })
                .collect(),
        },
    );
    ManagedContext::for_principal(&registry, &Principal::new("role-x", 5012, Vec::new()))
}

// --- classification ---

#[test]
fn classify_each_class_from_globs() {
    // A regular-file mode (S_IFREG) so the setuid rule does not fire.
    let reg = 0o100_644;
    assert_eq!(
        classify_path_mode("/etc/sudoers", reg),
        ObjectClass::Sudoers
    );
    assert_eq!(
        classify_path_mode("/etc/sudoers.d/zz", reg),
        ObjectClass::Sudoers
    );
    assert_eq!(
        classify_path_mode("/var/spool/cron/crontabs/root", reg),
        ObjectClass::Cron
    );
    assert_eq!(
        classify_path_mode("/etc/cron.d/job", reg),
        ObjectClass::Cron
    );
    assert_eq!(classify_path_mode("/etc/crontab", reg), ObjectClass::Cron);
    assert_eq!(
        classify_path_mode("/etc/systemd/system/x.service", reg),
        ObjectClass::SystemdUnit
    );
    assert_eq!(
        classify_path_mode("/lib/systemd/system/sshd.service", reg),
        ObjectClass::SystemdUnit
    );
    assert_eq!(classify_path_mode("/etc/shadow", reg), ObjectClass::Secret);
    assert_eq!(
        classify_path_mode("/home/u/.ssh/id_rsa", reg),
        ObjectClass::Secret
    );
    assert_eq!(
        classify_path_mode("/opt/app/server.pem", reg),
        ObjectClass::Secret
    );
    assert_eq!(
        classify_path_mode("/srv/app/.env", reg),
        ObjectClass::Secret
    );
    assert_eq!(
        classify_path_mode("/srv/app/aws_credentials.json", reg),
        ObjectClass::Secret
    );
    assert_eq!(
        classify_path_mode("/usr/bin/passwd", reg),
        ObjectClass::PathBinary
    );
    assert_eq!(
        classify_path_mode("/sbin/init", reg),
        ObjectClass::PathBinary
    );
    assert_eq!(
        classify_path_mode("/etc/ssh/sshd_config", reg),
        ObjectClass::Config
    );
    assert_eq!(
        classify_path_mode("/var/lib/app/data.db", reg),
        ObjectClass::Generic
    );
}

#[test]
fn setuid_bit_dominates_path() {
    // A setuid regular file under /usr/bin is SetuidBinary, not PathBinary.
    assert_eq!(
        classify_path_mode("/usr/bin/sudo", 0o104_755),
        ObjectClass::SetuidBinary
    );
    // setgid regular file too.
    assert_eq!(
        classify_path_mode("/usr/bin/wall", 0o102_755),
        ObjectClass::SetuidBinary
    );
    // But a setgid DIRECTORY is the inheritance idiom, not a setuid binary.
    assert_eq!(
        classify_path_mode("/srv/shared", 0o042_775),
        ObjectClass::Generic
    );
}

#[test]
fn classify_priority_sudoers_over_path_binary() {
    // A hypothetical sudoers drop-in path that also looks binary-ish: sudoers wins
    // because its row precedes the path-binary rows.
    assert_eq!(
        classify_path_mode("/etc/sudoers.d/90-cloud-init-users", 0o100_440),
        ObjectClass::Sudoers
    );
}

#[test]
fn glob_segment_and_doublestar_semantics() {
    // `*` does not cross a segment boundary.
    assert!(glob_match("/etc/cron*/**", "/etc/cron.d/job"));
    assert!(
        !glob_match("/etc/cron*", "/etc/cron.d/job"),
        "* is one segment"
    );
    // `**` matches zero segments.
    assert!(glob_match("/a/**", "/a"));
    assert!(glob_match("/a/**", "/a/b/c"));
    // suffix / prefix / contains within a segment.
    assert!(glob_match("**/*.pem", "/x/y/server.pem"));
    assert!(glob_match("**/*credentials*", "/x/my_credentials_v2"));
    assert!(!glob_match("**/*.pem", "/x/server.pem.bak"));
}

// --- risk / severity ---

#[test]
fn risk_table() {
    let w = rwx(false, true, false);
    let r = rwx(true, false, false);
    assert_eq!(derive_risk(w, ObjectClass::Cron), Some(Risk::Escalation));
    assert_eq!(derive_risk(w, ObjectClass::Sudoers), Some(Risk::Escalation));
    assert_eq!(
        derive_risk(w, ObjectClass::SetuidBinary),
        Some(Risk::Escalation)
    );
    assert_eq!(derive_risk(w, ObjectClass::Secret), Some(Risk::Escalation));
    assert_eq!(derive_risk(w, ObjectClass::Config), Some(Risk::Tamper));
    assert_eq!(derive_risk(w, ObjectClass::Generic), Some(Risk::Tamper));
    assert_eq!(derive_risk(r, ObjectClass::Secret), Some(Risk::Leak));
    // read of a non-secret is NOT a finding.
    assert_eq!(derive_risk(r, ObjectClass::PathBinary), None);
    assert_eq!(derive_risk(r, ObjectClass::Config), None);
    // execute-only is not a finding.
    assert_eq!(
        derive_risk(rwx(false, false, true), ObjectClass::PathBinary),
        None
    );
}

#[test]
fn severity_table() {
    assert_eq!(
        derive_severity(ObjectClass::Cron, Risk::Escalation),
        Severity::High
    );
    assert_eq!(
        derive_severity(ObjectClass::Secret, Risk::Leak),
        Severity::High
    );
    assert_eq!(
        derive_severity(ObjectClass::Config, Risk::Tamper),
        Severity::Medium
    );
    assert_eq!(
        derive_severity(ObjectClass::Generic, Risk::Tamper),
        Severity::Low
    );
}

// --- finding assembly + reachability gate ---

#[test]
fn cron_escalation_is_high_via_other_bits() {
    let rec = record("/var/spool/cron/crontabs/root", 0o100_666);
    let f = finding_for(
        &rec,
        rwx(true, true, false),
        &AccessVia::OtherBits,
        Some("svc"),
        true,
        &NoManagedContext,
    )
    .expect("write to cron is a finding");
    assert_eq!(f.class, ObjectClass::Cron);
    assert_eq!(f.risk, Risk::Escalation);
    assert_eq!(f.severity, Severity::High);
    assert_eq!(f.principal.as_deref(), Some("svc"));
    assert_eq!(f.remediation_class, RemediationClass::Ambient);
}

#[test]
fn secret_leak_is_high_via_other_bits() {
    let rec = record("/etc/shadow", 0o100_644);
    let f = finding_for(
        &rec,
        rwx(true, false, false),
        &AccessVia::OtherBits,
        None,
        true,
        &NoManagedContext,
    )
    .expect("world-readable secret is a finding");
    assert_eq!(f.class, ObjectClass::Secret);
    assert_eq!(f.risk, Risk::Leak);
    assert_eq!(f.severity, Severity::High);
    assert_eq!(f.via, AccessVia::OtherBits);
    assert!(f.principal.is_none(), "global mode has no principal");
}

#[test]
fn config_tamper_is_medium() {
    let rec = record("/etc/ssh/sshd_config", 0o100_666);
    let f = finding_for(
        &rec,
        rwx(true, true, false),
        &AccessVia::OtherBits,
        Some("svc"),
        true,
        &NoManagedContext,
    )
    .expect("config write is a finding");
    assert_eq!(f.class, ObjectClass::Config);
    assert_eq!(f.risk, Risk::Tamper);
    assert_eq!(f.severity, Severity::Medium);
}

#[test]
fn generic_world_writable_is_low() {
    let rec = record("/var/lib/app/scratch", 0o100_666);
    let f = finding_for(
        &rec,
        rwx(true, true, false),
        &AccessVia::OtherBits,
        Some("svc"),
        true,
        &NoManagedContext,
    )
    .expect("generic write is a finding");
    assert_eq!(f.class, ObjectClass::Generic);
    assert_eq!(f.severity, Severity::Low);
}

#[test]
fn unreachable_object_yields_no_finding() {
    let rec = record("/var/spool/cron/crontabs/root", 0o100_666);
    let f = finding_for(
        &rec,
        rwx(true, true, false),
        &AccessVia::OtherBits,
        Some("svc"),
        false, // unreachable
        &NoManagedContext,
    );
    assert!(f.is_none(), "an unreachable object is never a finding");
}

#[test]
fn read_of_non_secret_yields_no_finding() {
    let rec = record("/usr/bin/ls", 0o100_755);
    let f = finding_for(
        &rec,
        rwx(true, false, true),
        &AccessVia::OtherBits,
        Some("svc"),
        true,
        &NoManagedContext,
    );
    assert!(
        f.is_none(),
        "reading a world-readable binary is not a finding"
    );
}

// --- remediation ---

#[test]
fn ambient_world_write_hint_is_chmod_no_autofix() {
    let (class, hint) = remediation(
        &AccessVia::OtherBits,
        "/var/spool/cron/crontabs/root",
        ObjectClass::Cron,
        rwx(false, true, false),
        &NoManagedContext,
    );
    assert_eq!(class, RemediationClass::Ambient);
    assert!(hint.contains("chmod o-w"), "hint: {hint}");
    assert!(
        hint.contains("manually"),
        "must not promise auto-fix: {hint}"
    );
}

#[test]
fn ambient_secret_read_hint_is_chmod_640() {
    let (class, hint) = remediation(
        &AccessVia::OtherBits,
        "/etc/shadow",
        ObjectClass::Secret,
        rwx(true, false, false),
        &NoManagedContext,
    );
    assert_eq!(class, RemediationClass::Ambient);
    assert!(hint.contains("chmod 640"), "hint: {hint}");
}

#[test]
fn ambient_acl_user_hint_is_setfacl() {
    let (class, hint) = remediation(
        &AccessVia::AclUser("role-x".to_owned()),
        "/etc/secret.key",
        ObjectClass::Secret,
        rwx(true, false, false),
        &NoManagedContext,
    );
    assert_eq!(class, RemediationClass::Ambient);
    assert!(hint.contains("setfacl -x u:role-x"), "hint: {hint}");
}

#[test]
fn in_model_managed_group_hint_is_narrow_declaration() {
    let ctx = context(&["app"], &[]);
    let (class, hint) = remediation(
        &AccessVia::Group("app".to_owned()),
        "/srv/app/data",
        ObjectClass::Generic,
        rwx(false, true, false),
        &ctx,
    );
    assert_eq!(class, RemediationClass::InModel);
    assert!(hint.contains("group `app`"), "hint: {hint}");
    assert!(
        hint.contains("narrow"),
        "in-model hint must say narrow: {hint}"
    );
}

#[test]
fn in_model_covering_grant_hint_points_at_grant() {
    let ctx = context(&[], &["/etc/ssh"]);
    let (class, hint) = remediation(
        &AccessVia::AclUser("role-x".to_owned()),
        "/etc/ssh/sshd_config",
        ObjectClass::Config,
        rwx(true, true, false),
        &ctx,
    );
    assert_eq!(class, RemediationClass::InModel);
    assert!(hint.contains("file-access grant"), "hint: {hint}");
}

#[test]
fn unmanaged_group_via_is_ambient() {
    // A group `via` whose group is NOT managed stays ambient (chmod g-w).
    let (class, hint) = remediation(
        &AccessVia::Group("staff".to_owned()),
        "/srv/data",
        ObjectClass::Generic,
        rwx(false, true, false),
        &NoManagedContext,
    );
    assert_eq!(class, RemediationClass::Ambient);
    assert!(hint.contains("chmod g-w"), "hint: {hint}");
}

#[test]
fn tokens_are_stable() {
    assert_eq!(Risk::Escalation.as_str(), "escalation");
    assert_eq!(Risk::Leak.as_str(), "leak");
    assert_eq!(Risk::Tamper.as_str(), "tamper");
    assert_eq!(Severity::High.as_str(), "high");
    assert!(Severity::High.rank() > Severity::Medium.rank());
    assert!(Severity::Medium.rank() > Severity::Low.rank());
    assert_eq!(RemediationClass::Ambient.as_str(), "ambient");
    assert_eq!(RemediationClass::InModel.as_str(), "in-model");
    assert_eq!(ObjectClass::SetuidBinary.as_str(), "setuid-binary");
}

#[test]
fn globs_backtrack_within_a_segment() {
    assert!(glob_match("*a*b", "xaxbxb"));
    assert!(!glob_match("*a*b", "xaxbxc"));
    assert!(glob_match("a**b", "ab"));
    assert!(glob_match("**", ""));
    assert!(!glob_match("", "x"));
}

#[test]
fn hints_name_the_way_access_came() {
    let w = rwx(false, true, false);
    let r = rwx(true, false, false);
    let hint = |via: AccessVia, class: ObjectClass, access: AclPerms| {
        remediation(&via, "/x", class, access, &NoManagedContext).1
    };
    assert_eq!(
        hint(AccessVia::Owner, ObjectClass::Generic, w),
        "review ownership of `/x` (the principal owns it)"
    );
    assert_eq!(
        hint(AccessVia::AclGroup("g".to_owned()), ObjectClass::Generic, w),
        "remove the ACL entry manually: `setfacl -x g:g /x`"
    );
    assert_eq!(
        hint(AccessVia::Group("g".to_owned()), ObjectClass::Generic, r),
        "restrict group access manually on `/x`"
    );
    assert_eq!(
        hint(AccessVia::OtherBits, ObjectClass::Generic, r),
        "remove world read manually: `chmod o-rwx /x`"
    );
}

#[test]
fn an_inode_is_classified_by_its_path_and_mode() {
    assert_eq!(classify_object(&record("/etc/shadow", 0o100_600)), ObjectClass::Secret);
    assert_eq!(classify_object(&record("/opt/tool", 0o104_755)), ObjectClass::SetuidBinary);
    assert_eq!(classify_object(&record("/opt/notes", 0o100_644)), ObjectClass::Generic);
}

#[test]
fn only_regular_files_are_setuid_binaries() {
    // A setgid socket, and with it every other kind of special file.
    assert_eq!(classify_path_mode("/srv/app.sock", 0o142_755), ObjectClass::Generic);
    assert_eq!(classify_path_mode("/srv/app.fifo", 0o014_755), ObjectClass::Generic);
    assert_eq!(classify_path_mode("/srv/app.dev", 0o066_755), ObjectClass::Generic);
    assert_eq!(classify_path_mode("/srv/app.tty", 0o026_755), ObjectClass::Generic);
    // Where the id bit says nothing, the path does.
    assert_eq!(classify_path_mode("/usr/bin/agent.sock", 0o142_755), ObjectClass::PathBinary);
    assert_eq!(classify_path_mode("/srv/app", 0o106_755), ObjectClass::SetuidBinary);
    assert_eq!(classify_path_mode("/srv/app", 0o101_755), ObjectClass::Generic);
}
