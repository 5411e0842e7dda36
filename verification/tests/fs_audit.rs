use std::collections::{BTreeMap, BTreeSet};

use census::exposure::access::AccessVia;
use census::exposure::acl::{AclEntries, AclEntry, AclPerms, AclTag, FakeAclSource};
use census::exposure::expose::ManagedContext;
use census::exposure::fs_audit::{audit_fs, DEFAULT_BROAD_GROUPS};
use census::exposure::index::{FakeWalker, InodeStat, PermissionIndex};
use census::exposure::taxonomy::{
    Finding, NoManagedContext, RemediationClass, RemediationContext, Risk, Severity,
};
use census::exposure::ObjectClass;
use census::inspect::{GroupFacts, HostFacts};
use census::state::{ManagedGroup, Provenance, Registry};

/// The context of a registry that manages these groups.
fn managing(groups: &[&str]) -> ManagedContext {
    let mut registry = Registry::new();
    for g in groups {
        registry.groups.insert(
            g.to_string(),
            ManagedGroup {
                name: g.to_string(),
                gid: None,
                provenance: Provenance::Created,
                members_added: Vec::new(),
                sudo_commands: Vec::new(),
                adopt_baseline: None,
            },
        );
    }
    ManagedContext::global(&registry)
}

fn stat(path: &str, gid: u32, mode: u32) -> InodeStat {
    InodeStat {
        path: path.to_owned(),
        uid: 0,
        gid,
        mode,
        // Directory iff the file-type bits are S_IFDIR.
        is_dir: (mode & 0o170_000) == 0o040_000,
    }
}

fn index_of(stats: Vec<InodeStat>) -> PermissionIndex {
    let mut walker = FakeWalker::new();
    for s in stats {
        walker = walker.with(s);
    }
    let mut acl = FakeAclSource::new();
    // A root that contains every test path.
    PermissionIndex::build(&walker, &mut acl, &["/".to_owned()]).expect("build")
}

/// Build an index where some paths carry an extended POSIX ACL.
fn index_with_acls(stats: Vec<InodeStat>, acls: Vec<(&str, AclEntries)>) -> PermissionIndex {
    let mut walker = FakeWalker::new();
    for s in stats {
        walker = walker.with(s);
    }
    let mut acl = FakeAclSource::new();
    for (path, entries) in acls {
        acl = acl.with(path, entries);
    }
    PermissionIndex::build(&walker, &mut acl, &["/".to_owned()]).expect("build")
}

fn perms(r: bool, w: bool, x: bool) -> AclPerms {
    AclPerms {
        read: r,
        write: w,
        execute: x,
    }
}

fn find<'a>(findings: &'a [Finding], path: &str) -> Option<&'a Finding> {
    findings.iter().find(|f| f.path == path)
}

fn broad_groups() -> Vec<String> {
    DEFAULT_BROAD_GROUPS
        .iter()
        .map(|s| (*s).to_owned())
        .collect()
}

/// A fake `/etc/group` mapping each default broad group to its conventional gid, so
/// `group_name_by_gid` resolves the test gids back to names.
fn inspector() -> HostFacts {
    let mut insp = HostFacts::new();
    for (name, gid) in [
        ("adm", 4),
        ("wheel", 10),
        ("sudo", 27),
        ("staff", 50),
        ("users", 100),
    ] {
        insp.groups.insert(name.to_owned(), GroupFacts { gid });
    }
    insp
}

/// Run the posture map with the default broad groups and the fake group database.
fn run<C: RemediationContext>(index: &PermissionIndex, ctx: &C) -> Vec<Finding> {
    audit_fs(index, ctx, &broad_groups(), &inspector())
}

/// Run with a custom group database (for the renumbered-group test).
fn run_with<C: RemediationContext>(
    index: &PermissionIndex,
    ctx: &C,
    groups: BTreeMap<String, GroupFacts>,
) -> Vec<Finding> {
    let mut insp = HostFacts::new();
    for (name, facts) in groups {
        insp.groups.insert(name, facts);
    }
    audit_fs(index, ctx, &broad_groups(), &insp)
}

#[test]
fn world_writable_cron_is_high_escalation() {
    // /var/spool/cron at 0777 (dir) → Cron class, world-writable → escalation High.
    let index = index_of(vec![stat("/var/spool/cron", 0, 0o040_777)]);
    let findings = run(&index, &NoManagedContext);
    let f = find(&findings, "/var/spool/cron").expect("in posture map");
    assert_eq!(f.class, ObjectClass::Cron);
    assert_eq!(f.risk, Risk::Escalation);
    assert_eq!(f.severity, Severity::High);
    assert_eq!(f.via, AccessVia::OtherBits);
    assert!(
        f.principal.is_none(),
        "posture map is principal-independent"
    );
    assert!(f.access.write);
}

#[test]
fn writable_setuid_binary_is_critical_high() {
    // A setuid binary (0o104755) that is ALSO world-writable (0o104757) is High.
    let index = index_of(vec![stat("/usr/bin/vuln", 0, 0o104_757)]);
    let findings = run(&index, &NoManagedContext);
    let f = find(&findings, "/usr/bin/vuln").expect("in setuid inventory");
    assert_eq!(f.class, ObjectClass::SetuidBinary);
    assert_eq!(f.risk, Risk::Escalation);
    assert_eq!(f.severity, Severity::High, "writable setuid is critical");
    assert!(f.hint.contains("writable setuid"), "hint: {}", f.hint);
    // Dedup: the writable setuid must yield exactly ONE finding (not also a
    // separate world-writable one), since both axes key (path, other_bits,
    // escalation).
    let same = findings
        .iter()
        .filter(|x| x.path == "/usr/bin/vuln")
        .count();
    assert_eq!(same, 1, "writable setuid is one deduped finding");
}

#[test]
fn plain_setuid_binary_is_medium_inventory() {
    // A non-writable setuid binary (0o104755) is inventory at Medium.
    let index = index_of(vec![stat("/usr/bin/passwd", 0, 0o104_755)]);
    let findings = run(&index, &NoManagedContext);
    let f = find(&findings, "/usr/bin/passwd").expect("in setuid inventory");
    assert_eq!(f.severity, Severity::Medium);
    assert_eq!(f.risk, Risk::Escalation);
    assert!(f.hint.contains("verify"), "inventory hint: {}", f.hint);
}

#[test]
fn world_readable_secret_is_high_leak() {
    // /etc/shadow at 0644 → Secret, other-read → Leak High.
    let index = index_of(vec![stat("/etc/shadow", 0, 0o100_644)]);
    let findings = run(&index, &NoManagedContext);
    let f = find(&findings, "/etc/shadow").expect("in posture map");
    assert_eq!(f.class, ObjectClass::Secret);
    assert_eq!(f.risk, Risk::Leak);
    assert_eq!(f.severity, Severity::High);
    assert!(f.access.read && !f.access.write);
}

#[test]
fn broad_group_writable_is_ambient_then_in_model_when_managed() {
    // A generic file group-owned by staff (gid 50) with the group-write bit.
    let index = index_of(vec![stat("/srv/data", 50, 0o100_664)]);

    // Foreign (un-managed) staff → ambient, via=group:staff.
    let ambient = run(&index, &NoManagedContext);
    let fa = find(&ambient, "/srv/data").expect("broad-group finding");
    assert_eq!(fa.via, AccessVia::Group("staff".to_owned()));
    assert_eq!(fa.remediation_class, RemediationClass::Ambient);
    assert!(fa.hint.contains("chmod g-w"), "hint: {}", fa.hint);

    // The SAME object when staff is Census-managed → in-model.
    let managed_ctx = managing(&["staff"]);
    let in_model = run(&index, &managed_ctx);
    let fm = find(&in_model, "/srv/data").expect("broad-group finding");
    assert_eq!(fm.remediation_class, RemediationClass::InModel);
    assert!(fm.hint.contains("narrow"), "hint: {}", fm.hint);
}

#[test]
fn renumbered_broad_group_is_caught_by_name_not_gid() {
    // On a host where `staff` was renumbered to a NON-conventional gid (999), the
    // owning group is resolved from /etc/group by gid and matched by NAME, so it is
    // still caught (the old conventional-gid table would have missed gid 999).
    let index = index_of(vec![stat("/srv/data", 999, 0o100_664)]);
    let mut groups = BTreeMap::new();
    groups.insert("staff".to_owned(), GroupFacts { gid: 999 });
    let findings = run_with(&index, &NoManagedContext, groups);
    let f = find(&findings, "/srv/data").expect("renumbered staff still caught");
    assert_eq!(f.via, AccessVia::Group("staff".to_owned()));
}

#[test]
fn extended_acl_mask_caps_owning_group_below_writable() {
    // staff-owned file whose mode group triple is `rw` — but on an inode with an
    // extended ACL that triple is the MASK, not the owning group's access. The
    // `ACL_GROUP_OBJ` entry is `r--` (masked by `rw-` → `r--`), so `staff` cannot
    // actually write. The broad-group axis must NOT report it (using the mode
    // group bit would falsely flag it).
    let acl = AclEntries {
        entries: vec![
            AclEntry {
                tag: AclTag::UserObj,
                perms: perms(true, true, false),
            },
            AclEntry {
                tag: AclTag::User("bob".to_owned()),
                perms: perms(true, true, false),
            },
            AclEntry {
                tag: AclTag::GroupObj,
                perms: perms(true, false, false), // owning group: r--
            },
            AclEntry {
                tag: AclTag::Mask,
                perms: perms(true, true, false), // mask: rw- (the mode group bits)
            },
            AclEntry {
                tag: AclTag::Other,
                perms: AclPerms::default(),
            },
        ],
    };
    let index = index_with_acls(
        vec![stat("/srv/data", 50, 0o100_660)],
        vec![("/srv/data", acl)],
    );
    let findings = run(&index, &NoManagedContext);
    assert!(
        find(&findings, "/srv/data").is_none(),
        "owning group masked to r-- is not broad-group-writable"
    );
}

#[test]
fn extended_acl_owning_group_with_write_is_broad_writable() {
    // The dual: the same shape but `ACL_GROUP_OBJ` = `rw-` (masked rw → rw-), so
    // `staff` truly can write → the axis fires.
    let acl = AclEntries {
        entries: vec![
            AclEntry {
                tag: AclTag::UserObj,
                perms: perms(true, true, false),
            },
            AclEntry {
                tag: AclTag::User("bob".to_owned()),
                perms: perms(true, false, false),
            },
            AclEntry {
                tag: AclTag::GroupObj,
                perms: perms(true, true, false), // owning group: rw-
            },
            AclEntry {
                tag: AclTag::Mask,
                perms: perms(true, true, false),
            },
            AclEntry {
                tag: AclTag::Other,
                perms: AclPerms::default(),
            },
        ],
    };
    let index = index_with_acls(
        vec![stat("/srv/data", 50, 0o100_660)],
        vec![("/srv/data", acl)],
    );
    let findings = run(&index, &NoManagedContext);
    let f = find(&findings, "/srv/data").expect("owning group rw → broad-writable");
    assert_eq!(f.via, AccessVia::Group("staff".to_owned()));
    assert!(f.access.write);
}

#[test]
fn non_broad_group_writable_is_not_a_finding() {
    // A group-writable file owned by a project group not in `broad_groups` is not
    // flagged (only wide groups are a posture concern), and a gid that does not
    // resolve to any group is skipped best-effort.
    let index = index_of(vec![
        stat("/srv/proj", 800, 0o100_664),    // project group, not broad
        stat("/srv/orphan", 4242, 0o100_664), // gid with no /etc/group entry
    ]);
    let mut groups = BTreeMap::new();
    groups.insert("project".to_owned(), GroupFacts { gid: 800 });
    let findings = run_with(&index, &NoManagedContext, groups);
    assert!(
        find(&findings, "/srv/proj").is_none(),
        "narrow group not flagged"
    );
    assert!(
        find(&findings, "/srv/orphan").is_none(),
        "unresolved gid skipped"
    );
}

#[test]
fn ordinary_file_with_no_dangerous_bits_is_not_in_map() {
    // A normal generic file (0644, root group) trips no axis.
    let index = index_of(vec![stat("/var/lib/app/data.db", 0, 0o100_644)]);
    let findings = run(&index, &NoManagedContext);
    assert!(
        findings.is_empty(),
        "no dangerous bits → not in the posture map"
    );
}

#[test]
fn world_writable_generic_is_excluded_as_noise() {
    // A world-writable GENERIC file (e.g. /tmp-like scratch) is deliberately not
    // in the posture map (the world-writable axis covers only sensitive classes).
    let index = index_of(vec![stat("/var/tmp/scratch", 0, 0o100_666)]);
    let findings = run(&index, &NoManagedContext);
    assert!(
        find(&findings, "/var/tmp/scratch").is_none(),
        "generic world-writable is excluded"
    );
}

#[test]
fn distinct_axes_on_one_object_stay_separate() {
    // A config file that is BOTH world-writable (other-write) and
    // broad-group-writable (staff group-write) yields two distinct findings: one
    // via other_bits and one via group:staff — different sources, not a dup.
    let index = index_of(vec![stat("/etc/ssh/sshd_config", 50, 0o100_662)]);
    let findings = run(&index, &NoManagedContext);
    let vias: BTreeSet<String> = findings
        .iter()
        .filter(|f| f.path == "/etc/ssh/sshd_config")
        .map(|f| f.via.label())
        .collect();
    assert!(vias.contains("other_bits"), "world-writable axis fired");
    assert!(vias.contains("group:staff"), "broad-group axis fired");
    assert_eq!(vias.len(), 2, "two distinct sources, no extra dups");
}

#[test]
fn findings_come_in_order_of_their_key() {
    let index = index_of(vec![
        stat("/etc/sudoers", 0, 0o100_666),
        stat("/etc/crontab", 100, 0o100_666),
        stat("/etc/shadow", 0, 0o100_646),
    ]);
    let findings = run(&index, &NoManagedContext);
    let keys: Vec<(String, String, &str)> = findings
        .iter()
        .map(|f| (f.path.clone(), f.via.label(), f.risk.as_str()))
        .collect();
    assert_eq!(
        keys,
        vec![
            ("/etc/crontab".to_owned(), "group:users".to_owned(), "escalation"),
            ("/etc/crontab".to_owned(), "other_bits".to_owned(), "escalation"),
            ("/etc/shadow".to_owned(), "other_bits".to_owned(), "escalation"),
            ("/etc/shadow".to_owned(), "other_bits".to_owned(), "leak"),
            ("/etc/sudoers".to_owned(), "other_bits".to_owned(), "escalation"),
        ]
    );
}

#[test]
fn of_two_records_of_one_path_the_graver_stays() {
    // The path is listed twice: once as a plain setuid binary, once as a writable one.
    let index = index_of(vec![
        stat("/usr/bin/vuln", 0, 0o104_755),
        stat("/usr/bin/vuln", 0, 0o104_757),
    ]);
    let findings = run(&index, &NoManagedContext);
    assert_eq!(findings.len(), 1);
    assert_eq!(findings[0].severity, Severity::High);
}
