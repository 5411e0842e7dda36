use census::exposure::acl::{
    AclEntries, AclEntry, AclPerms, AclSource, AclTag, FakeAclSource,
};
use census::exposure::index::{
    FakeWalker, FsWalker, InodeStat, PermissionIndex, SkippedMount, WalkOutcome,
};
use census::exposure::mounts::MountTable;
use census::exposure::taxonomy::Classifier;
use census::exposure::walk::{
    enter_dir, FileKind, LiveWalker, Lstat, RootStat, VisitedDirs, WalkAction,
};
use census::exposure::{ExposureError, ObjectClass};

fn stat(path: &str, uid: u32, gid: u32, mode: u32, is_dir: bool) -> InodeStat {
    InodeStat {
        path: path.to_owned(),
        uid,
        gid,
        mode,
        is_dir,
    }
}

fn extended_acl() -> AclEntries {
    AclEntries {
        entries: vec![AclEntry {
            tag: AclTag::User("svc".to_owned()),
            perms: AclPerms {
                read: true,
                write: true,
                execute: false,
            },
        }],
    }
}

#[test]
fn build_indexes_records_under_roots() {
    let walker = FakeWalker::new()
        .with(stat("/etc", 0, 0, 0o040_755, true))
        .with(stat("/etc/ssh", 0, 0, 0o040_750, true))
        .with(stat("/etc/ssh/sshd_config", 0, 0, 0o100_600, false));
    let mut acl = FakeAclSource::new();
    let idx = PermissionIndex::build(&walker, &mut acl, &["/etc".to_owned()])
        .expect("build over fakes never fails");
    assert_eq!(idx.len(), 3);
    assert!(!idx.is_empty());
    let rec = idx.get("/etc/ssh/sshd_config").expect("indexed");
    assert_eq!(rec.uid, 0);
    assert_eq!(rec.gid, 0);
    assert_eq!(rec.mode & 0o7777, 0o600);
    // `/etc/ssh` is a security-relevant config prefix, so the classifier
    // assigns Config.
    assert_eq!(rec.class, ObjectClass::Config);
    assert!(rec.acl.is_none(), "no ACL supplied → None");
}

#[test]
fn build_scopes_to_requested_roots() {
    // A stat outside the requested root must not be indexed.
    let walker = FakeWalker::new()
        .with(stat("/etc/ssh", 0, 0, 0o040_750, true))
        .with(stat("/var/spool/cron", 0, 0, 0o041_777, true));
    let mut acl = FakeAclSource::new();
    let idx = PermissionIndex::build(&walker, &mut acl, &["/etc".to_owned()])
        .expect("never fails");
    assert_eq!(idx.len(), 1);
    assert!(idx.get("/etc/ssh").is_some());
    assert!(idx.get("/var/spool/cron").is_none(), "out of root scope");
}

#[test]
fn build_attaches_extended_acl_and_drops_trivial() {
    let walker = FakeWalker::new()
        .with(stat("/srv/shared", 0, 100, 0o040_770, true))
        .with(stat("/srv/plain", 0, 0, 0o100_644, false));
    // Supply an ACL for both paths; only the extended one is kept. The trivial
    // ACL (base entries only) is filtered out at build.
    let trivial = AclEntries {
        entries: vec![AclEntry {
            tag: AclTag::Other,
            perms: AclPerms::default(),
        }],
    };
    let mut acl = FakeAclSource::new()
        .with("/srv/shared", extended_acl())
        .with("/srv/plain", trivial);
    let idx = PermissionIndex::build(&walker, &mut acl, &["/srv".to_owned()])
        .expect("never fails");
    assert!(
        idx.get("/srv/shared").expect("indexed").acl.is_some(),
        "extended ACL attached"
    );
    assert!(
        idx.get("/srv/plain").expect("indexed").acl.is_none(),
        "trivial ACL dropped to None"
    );
}

#[test]
fn enter_dir_guard_admits_once_then_blocks_cycle() {
    // The bind-mount cycle guard: the same (dev, ino) is descended once; a second
    // arrival (a directory reachable via a second path on the same device) is
    // refused, breaking what would otherwise be an unbounded walk.
    let mut visited = VisitedDirs::new();
    assert!(enter_dir(&mut visited, 42, 100), "first visit descends");
    assert!(!enter_dir(&mut visited, 42, 100), "second visit is refused");
    assert!(
        enter_dir(&mut visited, 42, 101),
        "a different inode still descends"
    );
    assert!(
        enter_dir(&mut visited, 43, 100),
        "same ino on another device descends"
    );
}

/// One inode of a filesystem that only exists here.
struct Inode {
    path: &'static str,
    kind: FileKind,
    mode: u32,
    dev: u64,
    ino: u64,
}

fn inode(path: &'static str, kind: FileKind, ino: u64) -> Inode {
    let mode = match kind {
        FileKind::Symlink => 0o120_777,
        FileKind::Directory => 0o040_755,
        FileKind::Other => 0o100_644,
    };
    Inode {
        path,
        kind,
        mode,
        dev: 1,
        ino,
    }
}

fn lstat(fs: &[Inode], path: &str) -> Option<Lstat> {
    fs.iter().find(|i| i.path == path).map(|i| Lstat {
        kind: i.kind,
        uid: 0,
        gid: 0,
        mode: i.mode,
        dev: i.dev,
        ino: i.ino,
    })
}

fn list(fs: &[Inode], dir: &str) -> Vec<String> {
    let prefix = format!("{}/", dir.trim_end_matches('/'));
    fs.iter()
        .filter(|i| match i.path.strip_prefix(prefix.as_str()) {
            Some(rest) => !rest.is_empty() && !rest.contains('/'),
            None => false,
        })
        .map(|i| i.path.to_owned())
        .collect()
}

/// Drive a walk over `fs` to its end.
fn walk_fs(
    walker: &LiveWalker,
    fs: &[Inode],
    roots: &[&str],
) -> Result<WalkOutcome, ExposureError> {
    let roots: Vec<String> = roots.iter().map(|r| r.to_string()).collect();
    let mut walk = walker.start(&roots);
    loop {
        walk = match walk.action() {
            WalkAction::StatRoot(root) => {
                let answer = match lstat(fs, &root) {
                    Some(l) => RootStat::Found(l),
                    None => RootStat::Absent,
                };
                walker.take_root(walk, answer)?
            }
            WalkAction::List(dir) => walk.take_listing(Some(list(fs, &dir))),
            WalkAction::StatEntry(path) => walker.take_entry(walk, lstat(fs, &path)),
            WalkAction::Done => return Ok(walk.finish()),
        }
    }
}

fn paths(outcome: &WalkOutcome) -> Vec<&str> {
    outcome.stats.iter().map(|s| s.path.as_str()).collect()
}

#[test]
fn live_walker_indexes_tempdir_tree_and_reads_mode() {
    let fs = [
        inode("/t", FileKind::Directory, 1),
        inode("/t/sub", FileKind::Directory, 2),
        inode("/t/sub/data", FileKind::Other, 3),
    ];
    let outcome = walk_fs(&LiveWalker::new(None), &fs, &["/t"]).expect("walk");
    let found = paths(&outcome);
    assert!(found.contains(&"/t"), "root recorded");
    assert!(found.contains(&"/t/sub"), "subdir recorded");
    assert!(found.contains(&"/t/sub/data"), "file recorded");
    let file_stat = outcome
        .stats
        .iter()
        .find(|s| s.path == "/t/sub/data")
        .expect("file stat present");
    assert!(!file_stat.is_dir);
    assert_ne!(file_stat.mode & 0o170_000, 0, "mode type bits read");
}

#[test]
fn live_walker_does_not_follow_symlinks() {
    // The link leads to a directory outside of the root that holds a secret.
    let fs = [
        inode("/t", FileKind::Directory, 1),
        inode("/t/escape", FileKind::Symlink, 2),
        inode("/t/escape/secret", FileKind::Other, 3),
        inode("/out", FileKind::Directory, 4),
    ];
    let outcome = walk_fs(&LiveWalker::new(None), &fs, &["/t"]).expect("walk");
    assert!(
        outcome.stats.iter().all(|s| !s.path.contains("escape")),
        "symlink itself not recorded"
    );
    assert!(
        outcome.stats.iter().all(|s| !s.path.contains("secret")),
        "symlink target not followed"
    );
}

#[test]
fn live_walker_skips_absent_root() {
    let outcome = walk_fs(
        &LiveWalker::new(None),
        &[],
        &["/census-nonexistent-root-xyzzy"],
    )
    .expect("absent root is skipped, not an error");
    assert!(outcome.stats.is_empty());
    assert!(outcome.skipped_mounts.is_empty());
}

#[test]
fn live_walker_descends_local_submount_and_skips_network_with_notice() {
    // The mount table marks one subdirectory as a network mount and leaves the other
    // unlisted (local). The walk descends the local one and skips the network one while
    // noting the skip, so that there is never a silent gap.
    let fs = [
        inode("/t", FileKind::Directory, 1),
        Inode {
            dev: 2,
            ..inode("/t/localsub", FileKind::Directory, 1)
        },
        inode("/t/localsub/kept", FileKind::Other, 3),
        inode("/t/netmnt", FileKind::Directory, 4),
        inode("/t/netmnt/hidden", FileKind::Other, 5),
    ];
    let mountinfo = "50 25 0:44 / /t/netmnt rw shared:7 - nfs4 server:/export rw\n";
    let walker = LiveWalker::with_mounts(MountTable::from_mountinfo(mountinfo));
    let outcome = walk_fs(&walker, &fs, &["/t"]).expect("walk");

    let has = |needle: &str| outcome.stats.iter().any(|s| s.path.contains(needle));
    assert!(has("localsub"), "local mount point recorded");
    assert!(has("kept"), "local submount descended → child recorded");
    assert!(has("netmnt"), "network mount point itself recorded");
    assert!(!has("hidden"), "network mount NOT descended → child absent");

    assert_eq!(
        outcome.skipped_mounts.len(),
        1,
        "the network mount is noticed"
    );
    let skipped = &outcome.skipped_mounts[0];
    assert!(skipped.path.contains("netmnt"));
    assert_eq!(skipped.fstype, "nfs4");
}

#[test]
fn scan_root_that_is_a_network_mount_is_skipped_not_walked() {
    // A root that is itself a network mount must not be recorded or descended: a dead
    // server could hang the walk. It is skipped and noted, like a child mount.
    let fs = [
        inode("/mnt/share", FileKind::Directory, 1),
        inode("/mnt/share/hidden", FileKind::Other, 2),
    ];
    let mountinfo = "50 25 0:44 / /mnt/share rw shared:7 - nfs4 server:/export rw\n";
    let walker = LiveWalker::with_mounts(MountTable::from_mountinfo(mountinfo));
    let outcome = walk_fs(&walker, &fs, &["/mnt/share"]).expect("walk a network root");
    assert!(
        outcome.stats.is_empty(),
        "a network-mount root is not recorded or descended"
    );
    assert_eq!(
        outcome.skipped_mounts.len(),
        1,
        "the network root is noticed"
    );
    assert_eq!(outcome.skipped_mounts[0].fstype, "nfs4");
    assert!(outcome.skipped_mounts[0].path.contains("share"));
}

#[test]
fn build_surfaces_skipped_mounts_from_walk() {
    // The index carries the walk's notices, so that a caller can warn that coverage was
    // trimmed.
    let fs = [
        inode("/t", FileKind::Directory, 1),
        inode("/t/nfsmnt", FileKind::Directory, 2),
    ];
    let mountinfo = "60 25 0:50 / /t/nfsmnt rw - cifs //server/share rw\n";
    let walker = LiveWalker::with_mounts(MountTable::from_mountinfo(mountinfo));
    let outcome = walk_fs(&walker, &fs, &["/t"]).expect("walk");
    let idx = PermissionIndex::assemble(outcome, Vec::new(), &Classifier::default());
    assert_eq!(idx.skipped_mounts().len(), 1);
    assert_eq!(idx.skipped_mounts()[0].fstype, "cifs");
}

#[test]
fn a_root_that_cannot_be_read_ends_the_walk() {
    let walker = LiveWalker::new(None);
    let walk = walker.start(&["/proc".to_owned(), "/secret".to_owned()]);
    // A pseudo-filesystem root is never asked for.
    assert_eq!(walk.action(), WalkAction::StatRoot("/secret".to_owned()));
    match walker.take_root(walk, RootStat::Failed("Permission denied".to_owned())) {
        Err(e) => {
            assert_eq!(
                e,
                ExposureError::Walk {
                    root: "/secret".to_owned(),
                    reason: "Permission denied".to_owned(),
                }
            );
            assert!(e.message().contains("/secret"));
        }
        Ok(_) => panic!("the walk goes on"),
    }
}

#[test]
fn a_bind_mount_cycle_is_walked_once() {
    // The same directory inode shows up again below itself.
    let fs = [
        inode("/t", FileKind::Directory, 1),
        inode("/t/loop", FileKind::Directory, 1),
        inode("/t/loop/again", FileKind::Directory, 1),
        inode("/t/file", FileKind::Other, 2),
    ];
    let outcome = walk_fs(&LiveWalker::new(None), &fs, &["/t"]).expect("walk");
    let mut found = paths(&outcome);
    found.sort_unstable();
    assert_eq!(found, vec!["/t", "/t/file", "/t/loop"]);
}

#[test]
fn an_unreadable_directory_has_no_entries() {
    let walker = LiveWalker::new(None);
    let fs = [inode("/t", FileKind::Directory, 1)];
    let walk = walker.start(&["/t".to_owned()]);
    let walk = walker
        .take_root(walk, RootStat::Found(lstat(&fs, "/t").unwrap()))
        .unwrap();
    assert_eq!(walk.action(), WalkAction::List("/t".to_owned()));
    let walk = walk.take_listing(None);
    assert_eq!(walk.action(), WalkAction::Done);
    assert_eq!(walk.finish().stats.len(), 1);
}

#[test]
fn a_later_record_of_a_path_is_the_one_found() {
    let outcome = WalkOutcome {
        stats: vec![
            stat("/etc/x", 1, 1, 0o100_600, false),
            stat("/etc/x", 2, 2, 0o100_644, false),
        ],
        skipped_mounts: Vec::new(),
    };
    let acls = vec![("/etc/x".to_owned(), extended_acl())];
    let idx = PermissionIndex::assemble(outcome, acls, &Classifier::default());
    assert_eq!(idx.len(), 2);
    assert_eq!(idx.get("/etc/x").unwrap().uid, 2);
    // No ACL would mean a trivial one, so every record of the path has it.
    assert_eq!(idx.records()[0].acl, Some(extended_acl()));
    assert_eq!(idx.records()[1].acl, Some(extended_acl()));
    assert_eq!(idx.get("/etc/x").unwrap().acl, Some(extended_acl()));
    assert!(idx.get("/etc/y").is_none());
}

#[test]
fn one_export_mounted_twice_leaves_two_notices() {
    // Both mount points show the root inode of the same export.
    let fs = [
        inode("/srv", FileKind::Directory, 1),
        Inode {
            dev: 9,
            ..inode("/srv/a", FileKind::Directory, 2)
        },
        Inode {
            dev: 9,
            ..inode("/srv/b", FileKind::Directory, 2)
        },
        inode("/srv/b/hidden", FileKind::Other, 3),
    ];
    let mountinfo = "\
50 25 0:44 / /srv/a rw shared:7 - nfs4 server:/export rw
51 25 0:44 / /srv/b rw shared:8 - nfs4 server:/export rw
";
    let walker = LiveWalker::with_mounts(MountTable::from_mountinfo(mountinfo));
    let outcome = walk_fs(&walker, &fs, &["/srv"]).expect("walk");
    assert_eq!(paths(&outcome), vec!["/srv", "/srv/a", "/srv/b"]);
    let notice = |path: &str| SkippedMount {
        path: path.to_owned(),
        fstype: "nfs4".to_owned(),
    };
    assert_eq!(outcome.skipped_mounts, vec![notice("/srv/a"), notice("/srv/b")]);
}

#[test]
fn a_skipped_mount_hides_no_local_directory() {
    // A local path to the inode of a skipped mount is descended all the same.
    let fs = [
        inode("/t", FileKind::Directory, 1),
        inode("/t/net", FileKind::Directory, 2),
        inode("/t/net/hidden", FileKind::Other, 3),
        inode("/t/own", FileKind::Directory, 2),
        inode("/t/own/seen", FileKind::Other, 3),
    ];
    let mountinfo = "50 25 0:44 / /t/net rw - nfs4 server:/export rw\n";
    let walker = LiveWalker::with_mounts(MountTable::from_mountinfo(mountinfo));
    let outcome = walk_fs(&walker, &fs, &["/t"]).expect("walk");
    assert_eq!(paths(&outcome), vec!["/t", "/t/net", "/t/own", "/t/own/seen"]);
    assert_eq!(outcome.skipped_mounts.len(), 1);
    assert_eq!(outcome.skipped_mounts[0].path, "/t/net");
}

#[test]
fn a_root_gives_its_record_its_notice_or_nothing() {
    let fs = [
        inode("/t", FileKind::Directory, 1),
        inode("/t/file", FileKind::Other, 2),
        inode("/link", FileKind::Symlink, 3),
        inode("/proc", FileKind::Directory, 4),
        inode("/net", FileKind::Directory, 5),
    ];
    let mountinfo = "50 25 0:44 / /net rw - nfs4 server:/export rw\n";
    let walker = LiveWalker::with_mounts(MountTable::from_mountinfo(mountinfo));
    for nothing in ["/link", "/proc", "/absent"] {
        let outcome = walk_fs(&walker, &fs, &[nothing]).expect("walk");
        assert_eq!(outcome, WalkOutcome::default());
    }
    let outcome = walk_fs(&walker, &fs, &["/net"]).expect("walk");
    assert!(outcome.stats.is_empty());
    assert_eq!(outcome.skipped_mounts.len(), 1);
    let outcome = walk_fs(&walker, &fs, &["/t/file"]).expect("walk");
    assert_eq!(paths(&outcome), vec!["/t/file"]);
    let outcome = walk_fs(&walker, &fs, &["/t/", "/t/file"]).expect("walk");
    assert_eq!(paths(&outcome), vec!["/t/file"], "no inode is known as `/t/`");
}

/// Keeps the paths of every read.
struct CountingAcls {
    reads: Vec<Vec<String>>,
}

impl AclSource for CountingAcls {
    fn read_acls(&mut self, paths: &[String]) -> Vec<(String, AclEntries)> {
        self.reads.push(paths.to_vec());
        Vec::new()
    }
}

/// Fails at its first root.
struct FailingWalker;

impl FsWalker for FailingWalker {
    fn walk(&self, roots: &[String]) -> Result<WalkOutcome, ExposureError> {
        Err(ExposureError::Walk {
            root: roots[0].clone(),
            reason: "denied".to_owned(),
        })
    }
}

#[test]
fn acls_are_read_once_with_the_walked_paths() {
    let walker = FakeWalker::new()
        .with(stat("/etc", 0, 0, 0o040_755, true))
        .with(stat("/opt/x", 0, 0, 0o100_644, false))
        .with(stat("/etc/hosts", 0, 0, 0o100_644, false));
    let mut acls = CountingAcls { reads: Vec::new() };
    let roots = ["/etc".to_owned(), "/absent".to_owned()];
    PermissionIndex::build(&walker, &mut acls, &roots).expect("build");
    assert_eq!(acls.reads, vec![vec!["/etc".to_owned(), "/etc/hosts".to_owned()]]);
    let err = PermissionIndex::build(&FailingWalker, &mut acls, &roots).err();
    assert_eq!(
        err,
        Some(ExposureError::Walk {
            root: "/etc".to_owned(),
            reason: "denied".to_owned(),
        })
    );
    assert_eq!(acls.reads.len(), 1, "a walk that fails reads no ACL");
}
