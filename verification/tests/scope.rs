use census::exposure::mounts::{
    is_skip_fstype, parse_mountinfo_line, unescape_mountinfo, MountTable,
};
use census::exposure::scope::{default_roots, is_pseudo_fs};
use census::exposure::ObjectClass;

#[test]
fn object_class_token_and_default() {
    assert_eq!(ObjectClass::default(), ObjectClass::Generic);
    assert_eq!(ObjectClass::Generic.as_str(), "generic");
    assert_eq!(ObjectClass::Generic.as_str(), "generic");
}

#[test]
fn default_roots_cover_privileged_trees() {
    let roots = default_roots();
    for expected in [
        "/etc",
        "/var",
        "/opt",
        "/usr/local",
        "/srv",
        "/home",
        "/root",
    ] {
        assert!(
            roots.iter().any(|r| r == expected),
            "default roots must include {expected}"
        );
    }
}

#[test]
fn pseudo_fs_roots_are_skipped() {
    for p in ["/proc", "/sys", "/dev", "/run"] {
        assert!(is_pseudo_fs(p), "{p} must be pseudo-fs");
    }
}

#[test]
fn real_trees_are_not_pseudo_fs() {
    for p in ["/etc", "/var", "/srv/proc", "/opt/dev"] {
        assert!(!is_pseudo_fs(p), "{p} must not be pseudo-fs");
    }
}

#[test]
fn pseudo_fs_roots_are_compared_by_component() {
    assert!(is_pseudo_fs("/proc/"));
    assert!(is_pseudo_fs("//proc"));
    assert!(!is_pseudo_fs("/proc/1"));
    assert!(!is_pseudo_fs("proc"));
}

#[test]
fn skip_fstype_classifies_network_and_pseudo() {
    assert!(is_skip_fstype("nfs4"));
    assert!(is_skip_fstype("cifs"));
    assert!(is_skip_fstype("fuse.sshfs"));
    assert!(is_skip_fstype("9p"));
    assert!(is_skip_fstype("proc"));
    assert!(is_skip_fstype("sysfs"));
}

#[test]
fn skip_fstype_keeps_local_filesystems() {
    // Local on-disk and tmpfs are descended, not skipped.
    for fs in ["ext4", "xfs", "btrfs", "tmpfs", "ramfs", "vfat", "f2fs"] {
        assert!(!is_skip_fstype(fs), "{fs} must be treated as local");
    }
}

#[test]
fn from_mountinfo_records_only_skip_mounts() {
    // A local LVM submount (ext4), a network mount (nfs4), and a pseudo mount
    // (proc). Only the network and pseudo ones are recorded for skipping.
    let text = "\
25 30 8:2 / / rw,relatime shared:1 - ext4 /dev/sda2 rw
36 25 0:34 / /proc rw - proc proc rw
40 25 8:5 / /var/log rw,relatime shared:2 - ext4 /dev/sdb1 rw
50 25 0:44 / /mnt/share rw - nfs4 server:/export rw
";
    let table = MountTable::from_mountinfo(text);
    // Network and pseudo are skip-classified.
    assert_eq!(
        table.skip_fstype("/mnt/share").as_deref(),
        Some("nfs4")
    );
    assert_eq!(
        table.skip_fstype("/proc").as_deref(),
        Some("proc")
    );
    // Local mounts (root and /var/log on a separate device) are NOT skipped.
    assert!(
        table.skip_fstype("/var/log").is_none(),
        "local submount descended"
    );
    assert!(table.skip_fstype("/").is_none());
}

#[test]
fn mountinfo_line_parses_mount_point_and_fstype() {
    let line = "50 25 0:44 / /mnt/share rw shared:7 - nfs4 server:/export rw,vers=4";
    assert_eq!(
        parse_mountinfo_line(line),
        Some(("/mnt/share".to_owned(), "nfs4".to_owned()))
    );
}

#[test]
fn mountinfo_unescapes_spaces_in_mount_point() {
    let line = "60 25 8:6 / /mnt/my\\040share rw - ext4 /dev/sdc1 rw";
    let parsed = parse_mountinfo_line(line).expect("parses");
    assert_eq!(parsed.0, "/mnt/my share");
}

#[test]
fn live_table_is_best_effort_off_linux() {
    // On a host without /proc/self/mountinfo the table is simply empty (the walk
    // then descends everything on the device); it never panics.
    let table = MountTable::live(None);
    assert!(table.skip_fstype("/proc").is_none());
    let table = MountTable::live(Some("36 25 0:34 / /proc rw - proc proc rw\n"));
    assert_eq!(table.skip_fstype("/proc").as_deref(), Some("proc"));
}

#[test]
fn mountinfo_unescapes_each_escape_and_no_other() {
    let point = |escaped: &str| {
        let line = format!("60 25 8:6 / {escaped} rw - ext4 /dev/sdc1 rw");
        parse_mountinfo_line(&line).map(|m| m.0)
    };
    assert_eq!(point("/a\\011b").as_deref(), Some("/a\tb"));
    assert_eq!(point("/a\\012b").as_deref(), Some("/a\nb"));
    assert_eq!(point("/a\\134b").as_deref(), Some("/a\\b"));
    assert_eq!(point("/a\\101b").as_deref(), Some("/a\\101b"));
    assert_eq!(point("/a\\x").as_deref(), Some("/a\\x"));
}

#[test]
fn short_mountinfo_lines_are_passed_over() {
    assert_eq!(parse_mountinfo_line(""), None);
    assert_eq!(parse_mountinfo_line("50 25 0:44 / /mnt rw nfs4 server rw"), None);
    assert_eq!(parse_mountinfo_line("50 25 0:44 / /mnt rw -"), None);
}

#[test]
fn a_later_skip_of_one_mount_point_wins() {
    let table = MountTable::from_mountinfo(
        "50 25 0:44 / /mnt rw - nfs4 a rw\n51 25 0:45 / /mnt rw - cifs b rw\n",
    );
    assert_eq!(table.skip_fstype("/mnt").as_deref(), Some("cifs"));
}

#[test]
fn plain_and_cut_off_escapes_stay() {
    assert_eq!(unescape_mountinfo("/mnt/share"), "/mnt/share");
    assert_eq!(unescape_mountinfo("/a\\040b\\040c"), "/a b c");
    assert_eq!(unescape_mountinfo("/a\\04"), "/a\\04");
    assert_eq!(unescape_mountinfo("/a\\"), "/a\\");
}
