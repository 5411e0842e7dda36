use census::exposure::access::{
    effective, mode_triple, resolve_principal, AccessVia, Principal, ResolvedGroup,
};
use census::exposure::acl::{AclEntries, AclEntry, AclPerms, AclTag};
use census::exposure::index::InodeRecord;
use census::exposure::ObjectClass;
use census::inspect::{AccountFacts, GroupFacts, HostFacts};

fn perms(r: bool, w: bool, x: bool) -> AclPerms {
    AclPerms {
        read: r,
        write: w,
        execute: x,
    }
}

fn record(path: &str, uid: u32, gid: u32, mode: u32, acl: Option<AclEntries>) -> InodeRecord {
    InodeRecord {
        path: path.to_owned(),
        uid,
        gid,
        mode,
        acl,
        class: ObjectClass::Generic,
    }
}

fn principal(name: &str, uid: u32, groups: &[(&str, u32)]) -> Principal {
    Principal::new(
        name,
        uid,
        groups
            .iter()
            .map(|(n, g)| ResolvedGroup {
                name: (*n).to_owned(),
                gid: *g,
            })
            .collect(),
    )
}

fn extended(entries: Vec<AclEntry>) -> AclEntries {
    AclEntries { entries }
}

fn entry(tag: AclTag, p: AclPerms) -> AclEntry {
    AclEntry { tag, perms: p }
}

#[test]
fn root_uid_has_full_access_via_owner() {
    let rec = record("/x", 1000, 1000, 0o100_000, None);
    let eff = effective(&rec, &principal("root", 0, &[]));
    assert_eq!(eff.access, AclPerms::all());
    assert_eq!(eff.via, AccessVia::Owner);
}

#[test]
fn mode_owner_bits_apply_to_owner() {
    // mode 0640: owner rw, group r, other none. The owning uid gets rw via owner.
    let rec = record("/f", 1000, 50, 0o100_640, None);
    let eff = effective(&rec, &principal("alice", 1000, &[]));
    assert_eq!(eff.access, perms(true, true, false));
    assert_eq!(eff.via, AccessVia::Owner);
}

#[test]
fn world_writable_grants_write_via_other_bits() {
    // A world-writable file (0666) reached by a non-owner, non-group principal:
    // write via the other bits.
    let rec = record("/tmp/x", 0, 0, 0o100_666, None);
    let eff = effective(&rec, &principal("bob", 1001, &[]));
    assert_eq!(eff.access, perms(true, true, false));
    assert_eq!(eff.via, AccessVia::OtherBits);
}

#[test]
fn supplementary_group_grants_access_via_group() {
    // A group-writable file (mode 0660, group app gid 50). The principal is not
    // the owner but is a supplementary member of app → write via group:app.
    let rec = record("/srv/app/data", 0, 50, 0o100_660, None);
    let eff = effective(&rec, &principal("bob", 1001, &[("app", 50)]));
    assert_eq!(eff.access, perms(true, true, false));
    assert_eq!(eff.via, AccessVia::Group("app".to_owned()));
}

#[test]
fn named_user_acl_grants_rw() {
    // ACL: owner r--, named user role-x rw-, mask rw-, other ---. The principal
    // role-x (not the owner) gets rw via the named-user entry.
    let acl = Some(extended(vec![
        entry(AclTag::UserObj, perms(true, false, false)),
        entry(AclTag::User("role-x".to_owned()), perms(true, true, false)),
        entry(AclTag::GroupObj, perms(true, false, false)),
        entry(AclTag::Mask, perms(true, true, false)),
        entry(AclTag::Other, perms(false, false, false)),
    ]));
    let rec = record("/etc/x", 0, 0, 0o100_640, acl);
    let eff = effective(&rec, &principal("role-x", 5012, &[]));
    assert_eq!(eff.access, perms(true, true, false));
    assert_eq!(eff.via, AccessVia::AclUser("role-x".to_owned()));
}

#[test]
fn mask_caps_named_group_to_read() {
    // ACL named group app rwx but mask r-- → effective r only; write denied.
    let acl = Some(extended(vec![
        entry(AclTag::UserObj, perms(true, true, false)),
        entry(AclTag::GroupObj, perms(true, false, false)),
        entry(AclTag::Group("app".to_owned()), perms(true, true, true)),
        entry(AclTag::Mask, perms(true, false, false)),
        entry(AclTag::Other, perms(false, false, false)),
    ]));
    let rec = record("/srv/x", 0, 0, 0o100_640, acl);
    let eff = effective(&rec, &principal("bob", 1001, &[("app", 50)]));
    assert_eq!(
        eff.access,
        perms(true, false, false),
        "mask caps rwx to r--"
    );
    assert_eq!(eff.via, AccessVia::AclGroup("app".to_owned()));
}

#[test]
fn matched_group_class_with_no_grant_does_not_fall_to_other() {
    // ACL named group app with NO permissions, but other has rwx. A principal in
    // app matches the group class → access is the (empty) group grant, NOT the
    // permissive other bits.
    let acl = Some(extended(vec![
        entry(AclTag::UserObj, perms(true, true, true)),
        entry(AclTag::GroupObj, perms(false, false, false)),
        entry(AclTag::Group("app".to_owned()), perms(false, false, false)),
        entry(AclTag::Mask, perms(true, true, true)),
        entry(AclTag::Other, perms(true, true, true)),
    ]));
    let rec = record("/srv/x", 0, 0, 0o100_647, acl);
    let eff = effective(&rec, &principal("bob", 1001, &[("app", 50)]));
    assert_eq!(
        eff.access,
        perms(false, false, false),
        "group class matched but grants nothing — must not use other"
    );
    assert_eq!(eff.via, AccessVia::AclGroup("app".to_owned()));
}

#[test]
fn resolve_principal_by_numeric_uid() {
    // A fake passwd/group: account svc uid 5012, primary gid 5012 (group svc),
    // supplementary group app gid 50. Resolving by the numeric uid yields the
    // name, uid, and both groups.
    let mut insp = HostFacts::new();
    insp.accounts.insert(
        "svc".to_owned(),
        AccountFacts {
            uid: 5012,
            shell: "/bin/bash".to_owned(),
            home: "/home/svc".to_owned(),
            groups: vec!["app".to_owned()],
        },
    );
    insp.primary_gids.insert("svc".to_owned(), 5012);
    insp.groups
        .insert("svc".to_owned(), GroupFacts { gid: 5012 });
    insp.groups.insert("app".to_owned(), GroupFacts { gid: 50 });

    let p = resolve_principal(&insp, "5012").expect("resolves by uid");
    assert_eq!(p.name, "svc");
    assert_eq!(p.uid, 5012);
    // Primary group svc(5012) first, then supplementary app(50).
    assert_eq!(
        p.groups,
        vec![
            ResolvedGroup {
                name: "svc".to_owned(),
                gid: 5012
            },
            ResolvedGroup {
                name: "app".to_owned(),
                gid: 50
            },
        ]
    );
    // And by name resolves identically.
    let by_name = resolve_principal(&insp, "svc").expect("resolves by name");
    assert_eq!(by_name, p);
}

#[test]
fn resolve_orphan_numeric_uid_yields_groupless_principal() {
    // A numeric uid that owns files but has NO passwd entry (an orphan uid) must
    // still resolve — by raw reachability with no groups — so the audit can run.
    let insp = HostFacts::new();
    let p = resolve_principal(&insp, "70123").expect("orphan uid still resolves");
    assert_eq!(p.uid, 70123);
    assert_eq!(p.name, "70123", "name falls back to the uid string");
    assert!(p.groups.is_empty(), "an orphan uid has no group membership");
}

#[test]
fn resolve_unknown_name_is_none() {
    // A bare (non-numeric) name with no passwd entry cannot be audited.
    let insp = HostFacts::new();
    assert!(resolve_principal(&insp, "ghost").is_none());
}

#[test]
fn via_labels_render_tokens() {
    assert_eq!(AccessVia::Owner.label(), "owner");
    assert_eq!(AccessVia::OtherBits.label(), "other_bits");
    assert_eq!(AccessVia::AclUser("u".to_owned()).label(), "acl_user:u");
    assert_eq!(AccessVia::AclGroup("g".to_owned()).label(), "acl_group:g");
    assert_eq!(AccessVia::Group("g".to_owned()).label(), "group:g");
}

#[test]
fn acl_class_unions_its_entries_and_credits_the_one_that_grants() {
    // The owning group grants nothing; a named group grants write. The union is write,
    // and the named group is credited.
    let acl = Some(extended(vec![
        entry(AclTag::UserObj, perms(true, true, true)),
        entry(AclTag::GroupObj, perms(false, false, false)),
        entry(AclTag::Group("app".to_owned()), perms(false, true, false)),
        entry(AclTag::Group("ops".to_owned()), perms(true, false, false)),
        entry(AclTag::Mask, perms(true, true, true)),
        entry(AclTag::Other, perms(false, false, true)),
    ]));
    let rec = record("/srv/x", 0, 7, 0o100_640, acl);
    let p = principal("bob", 1001, &[("own", 7), ("app", 50), ("ops", 51)]);
    let eff = effective(&rec, &p);
    assert_eq!(eff.access, perms(true, true, false));
    assert_eq!(eff.via, AccessVia::AclGroup("app".to_owned()));
}

#[test]
fn owner_and_other_entries_are_not_masked() {
    let acl = Some(extended(vec![
        entry(AclTag::UserObj, perms(true, true, true)),
        entry(AclTag::GroupObj, perms(true, true, true)),
        entry(AclTag::Mask, perms(false, false, false)),
        entry(AclTag::Other, perms(true, false, false)),
    ]));
    let rec = record("/srv/x", 1000, 7, 0o100_000, acl);
    assert_eq!(
        effective(&rec, &principal("alice", 1000, &[])).access,
        perms(true, true, true)
    );
    assert_eq!(
        effective(&rec, &principal("bob", 1001, &[])).access,
        perms(true, false, false)
    );
    assert_eq!(
        effective(&rec, &principal("carol", 1002, &[("own", 7)])).access,
        perms(false, false, false)
    );
}

#[test]
fn a_trivial_acl_leaves_the_mode_in_charge() {
    let acl = Some(extended(vec![
        entry(AclTag::UserObj, perms(false, false, false)),
        entry(AclTag::GroupObj, perms(false, false, false)),
        entry(AclTag::Other, perms(false, false, false)),
    ]));
    let rec = record("/f", 1000, 50, 0o100_644, acl);
    let eff = effective(&rec, &principal("bob", 1001, &[]));
    assert_eq!(eff.access, perms(true, false, false));
    assert_eq!(eff.via, AccessVia::OtherBits);
}

#[test]
fn resolve_merges_groups_of_one_gid_and_drops_unknown_ones() {
    let mut insp = HostFacts::new();
    insp.accounts.insert(
        "svc".to_owned(),
        AccountFacts {
            uid: 5012,
            shell: "/bin/sh".to_owned(),
            home: "/home/svc".to_owned(),
            groups: vec!["ghosts".to_owned(), "twin".to_owned(), "app".to_owned()],
        },
    );
    insp.primary_gids.insert("svc".to_owned(), 99);
    insp.groups.insert("twin".to_owned(), GroupFacts { gid: 99 });
    insp.groups.insert("app".to_owned(), GroupFacts { gid: 50 });
    let p = resolve_principal(&insp, "svc").expect("resolves");
    let gids: Vec<u32> = p.groups.iter().map(|g| g.gid).collect();
    assert_eq!(gids, vec![99, 50]);
    assert_eq!(p.groups[0].name, "twin");
    assert_eq!(p.home.as_deref(), Some("/home/svc"));
}

#[test]
fn numbers_that_are_no_uid_are_names() {
    let insp = HostFacts::new();
    assert!(resolve_principal(&insp, "").is_none());
    assert!(resolve_principal(&insp, "+5").is_none());
    assert!(resolve_principal(&insp, "4294967296").is_none());
    assert_eq!(resolve_principal(&insp, "4294967295").unwrap().uid, u32::MAX);
    assert_eq!(resolve_principal(&insp, "007").unwrap().name, "7");
}

#[test]
fn a_triple_is_three_bits_of_the_mode_word() {
    assert_eq!(mode_triple(0o100_754, 6), perms(true, true, true));
    assert_eq!(mode_triple(0o100_754, 3), perms(true, false, true));
    assert_eq!(mode_triple(0o100_754, 0), perms(true, false, false));
    // Above the owner stand the id bits and the sticky bit; above those, the file type.
    assert_eq!(mode_triple(0o106_754, 9), perms(true, true, false));
    assert_eq!(mode_triple(u32::MAX, 31), perms(false, false, true));
}
