use census::exposure::acl::{
    parse_acl_entry, parse_getfacl_dump, parse_perms, AclEntries, AclEntry, AclPerms, AclSource,
    AclTag, FakeAclSource, GetfaclReader, ScanRunner, GETFACL_PATH_CHUNK,
};

/// A scan runner returning a fixed dump for any invocation, to drive the parser
/// through `GetfaclReader` without executing real `getfacl`.
struct CannedRunner {
    stdout: Vec<u8>,
}
impl ScanRunner for CannedRunner {
    fn run_capture(&mut self, _binary: &str, _args: &[String]) -> Vec<u8> {
        self.stdout.clone()
    }
}

/// A scan runner that records the binary + argv of each call (and returns empty
/// stdout), so a test can pin the exact `getfacl` flags.
#[derive(Default)]
struct RecordingRunner {
    calls: Vec<(String, Vec<String>)>,
}
impl ScanRunner for RecordingRunner {
    fn run_capture(&mut self, binary: &str, args: &[String]) -> Vec<u8> {
        self.calls.push((binary.to_owned(), args.to_vec()));
        Vec::new()
    }
}

#[test]
fn getfacl_reader_uses_name_qualifiers() {
    // The access check matches named-user/named-group ACL entries by NAME, which
    // is only correct because `getfacl` is invoked WITHOUT `-n` (numeric). Pin
    // that here so the contract documented on `effective` cannot silently drift:
    // the argv must carry `--absolute-names` and the path, and must NOT carry
    // `-n` / `--numeric` (which would make qualifiers ids and break name matching).
    let mut runner = RecordingRunner::default();
    {
        // Borrow the runner into the reader so we can inspect its recorded calls
        // after the read (the `&mut R: ScanRunner` forward makes this work).
        let mut reader = GetfaclReader::new(&mut runner, "getfacl");
        let _ = reader.read_acls(&["/etc/ssh".to_owned(), "/etc/pam.d".to_owned()]);
    }
    assert_eq!(
        runner.calls.len(),
        1,
        "one batched getfacl call for both paths"
    );
    let (binary, args) = &runner.calls[0];
    assert_eq!(binary, "getfacl");
    assert!(
        args.contains(&"--absolute-names".to_owned()),
        "args: {args:?}"
    );
    assert!(args.contains(&"/etc/ssh".to_owned()));
    assert!(args.contains(&"/etc/pam.d".to_owned()));
    assert!(
        !args.iter().any(|a| a == "-n" || a == "--numeric"),
        "qualifiers must stay names (no -n): {args:?}"
    );
}

fn perms(s: &str) -> AclPerms {
    parse_perms(s).expect("test perm triple must parse")
}

#[test]
fn parse_perms_maps_each_slot() {
    assert_eq!(
        perms("rwx"),
        AclPerms {
            read: true,
            write: true,
            execute: true
        }
    );
    assert_eq!(
        perms("r--"),
        AclPerms {
            read: true,
            write: false,
            execute: false
        }
    );
    assert_eq!(
        perms("rw-"),
        AclPerms {
            read: true,
            write: true,
            execute: false
        }
    );
    assert_eq!(
        perms("--x"),
        AclPerms {
            read: false,
            write: false,
            execute: true
        }
    );
    assert_eq!(perms("---"), AclPerms::default());
}

#[test]
fn parse_perms_rejects_bad_field() {
    assert!(parse_perms("rw").is_none(), "too short");
    assert!(parse_perms("rwxr").is_none(), "too long");
    assert!(parse_perms("rwz").is_none(), "bad character");
}

#[test]
fn rwx_round_trips() {
    assert_eq!(perms("r-x").rwx(), "r-x");
    assert_eq!(AclPerms::default().rwx(), "---");
}

#[test]
fn parse_entry_owner_and_owning_group_and_other() {
    assert_eq!(
        parse_acl_entry("user::rwx"),
        Some(AclEntry {
            tag: AclTag::UserObj,
            perms: perms("rwx")
        })
    );
    assert_eq!(
        parse_acl_entry("group::r-x"),
        Some(AclEntry {
            tag: AclTag::GroupObj,
            perms: perms("r-x")
        })
    );
    assert_eq!(
        parse_acl_entry("other::r--"),
        Some(AclEntry {
            tag: AclTag::Other,
            perms: perms("r--")
        })
    );
}

#[test]
fn parse_entry_named_user_group_and_mask() {
    assert_eq!(
        parse_acl_entry("user:role-x:rw-"),
        Some(AclEntry {
            tag: AclTag::User("role-x".to_owned()),
            perms: perms("rw-")
        })
    );
    assert_eq!(
        parse_acl_entry("group:app:rwx"),
        Some(AclEntry {
            tag: AclTag::Group("app".to_owned()),
            perms: perms("rwx")
        })
    );
    assert_eq!(
        parse_acl_entry("mask::rw-"),
        Some(AclEntry {
            tag: AclTag::Mask,
            perms: perms("rw-")
        })
    );
}

#[test]
fn parse_entry_strips_effective_comment() {
    // getfacl appends `#effective:` when the mask narrows an entry; the granted
    // bits before the mask are what we record.
    assert_eq!(
        parse_acl_entry("group:app:rwx\t\t#effective:rw-"),
        Some(AclEntry {
            tag: AclTag::Group("app".to_owned()),
            perms: perms("rwx")
        })
    );
}

#[test]
fn parse_entry_skips_comments_and_default_entries() {
    assert_eq!(parse_acl_entry("# file: /etc/ssh"), None);
    assert_eq!(parse_acl_entry("# owner: root"), None);
    assert_eq!(parse_acl_entry("default:user::rwx"), None);
    assert_eq!(parse_acl_entry("garbage line"), None);
}

#[test]
fn dump_with_named_user_group_and_mask_parses_to_one_record() {
    let dump = "\
# file: /etc/ssh
# owner: root
# group: root
user::rwx
user:role-x:rw-
group::r-x
group:app:rwx
mask::rw-
other::r--
";
    let parsed = parse_getfacl_dump(dump);
    assert_eq!(parsed.len(), 1);
    let (path, acl) = &parsed[0];
    assert_eq!(path, "/etc/ssh");
    assert_eq!(acl.entries.len(), 6);
    assert!(
        acl.is_extended(),
        "named user + named group + mask is extended"
    );
    assert!(acl.entries.contains(&AclEntry {
        tag: AclTag::User("role-x".to_owned()),
        perms: perms("rw-"),
    }));
    assert!(acl.entries.contains(&AclEntry {
        tag: AclTag::Group("app".to_owned()),
        perms: perms("rwx"),
    }));
    assert!(acl.entries.iter().any(|e| matches!(e.tag, AclTag::Mask)));
}

#[test]
fn dump_multiple_records_keyed_by_absolute_path() {
    let dump = "\
# file: /etc/ssh
user::rwx
group::r-x
other::r--

# file: /etc/ssh/sshd_config
user::rw-
user:auditor:r--
group::r--
mask::r--
other::---
";
    let parsed = parse_getfacl_dump(dump);
    assert_eq!(parsed.len(), 2);
    assert_eq!(parsed[0].0, "/etc/ssh");
    assert_eq!(parsed[1].0, "/etc/ssh/sshd_config");
    assert!(!parsed[0].1.is_extended());
    assert!(parsed[1].1.is_extended());
}

#[test]
fn trivial_acl_is_not_extended() {
    let dump = "\
# file: /etc/hostname
user::rw-
group::r--
other::r--
";
    let parsed = parse_getfacl_dump(dump);
    assert_eq!(parsed.len(), 1);
    assert!(
        !parsed[0].1.is_extended(),
        "only base entries means no extended ACL"
    );
}

#[test]
fn getfacl_reader_runs_runner_and_parses() {
    let dump =
        b"# file: /srv/data\nuser::rwx\nuser:svc:rw-\ngroup::r-x\nmask::rw-\nother::---\n";
    let mut reader = GetfaclReader::new(
        CannedRunner {
            stdout: dump.to_vec(),
        },
        "getfacl",
    );
    let pairs = reader.read_acls(&["/srv/data".to_owned()]);
    assert_eq!(pairs.len(), 1);
    assert_eq!(pairs[0].0, "/srv/data");
    assert!(pairs[0].1.is_extended());
}

#[test]
fn getfacl_reader_best_effort_returns_only_readable_paths() {
    // getfacl was asked for two paths but could only read one (the other failed,
    // e.g. removed mid-scan): the runner returns a partial dump and the reader
    // returns just the path it could parse — no abort, no fabricated entry.
    let dump = b"# file: /srv/ok\nuser::rwx\nuser:svc:rw-\ngroup::r-x\nmask::rw-\nother::---\n";
    let mut reader = GetfaclReader::new(
        CannedRunner {
            stdout: dump.to_vec(),
        },
        "getfacl",
    );
    let pairs = reader.read_acls(&["/srv/ok".to_owned(), "/srv/gone".to_owned()]);
    assert_eq!(pairs.len(), 1);
    assert_eq!(pairs[0].0, "/srv/ok");
}

#[test]
fn getfacl_reader_total_failure_yields_empty_not_abort() {
    // getfacl absent or every path failed: empty stdout → no pairs, never panics.
    let mut reader = GetfaclReader::new(CannedRunner { stdout: Vec::new() }, "getfacl");
    let pairs = reader.read_acls(&["/srv/a".to_owned(), "/srv/b".to_owned()]);
    assert!(pairs.is_empty());
}

#[test]
fn fake_acl_source_returns_canned_pairs() {
    let acl = AclEntries {
        entries: vec![AclEntry {
            tag: AclTag::User("svc".to_owned()),
            perms: perms("rw-"),
        }],
    };
    let mut src = FakeAclSource::new().with("/srv/x", acl.clone());
    let pairs = src.read_acls(&[]);
    assert_eq!(pairs, vec![("/srv/x".to_owned(), acl)]);
}

#[test]
fn long_path_lists_are_read_in_batches() {
    let paths: Vec<String> = (0..GETFACL_PATH_CHUNK + 1)
        .map(|i| format!("/srv/{i}"))
        .collect();
    let mut reader = GetfaclReader::production(RecordingRunner::default());
    let _ = reader.read_acls(&paths);
    let calls = &reader.runner.calls;
    assert_eq!(calls.len(), 2);
    assert_eq!(calls[0].1.len(), GETFACL_PATH_CHUNK + 1);
    assert_eq!(
        calls[1].1,
        vec![
            "--absolute-names".to_owned(),
            format!("/srv/{GETFACL_PATH_CHUNK}")
        ]
    );
    let none: Vec<String> = Vec::new();
    let mut idle = GetfaclReader::production(RecordingRunner::default());
    assert!(idle.read_acls(&none).is_empty());
    assert!(idle.runner.calls.is_empty());
}

#[test]
fn getfacl_output_that_is_not_text_is_read_with_replacements() {
    let mut reader = GetfaclReader::production(CannedRunner {
        stdout: b"# file: /srv/\xff\nuser:svc:rw-\n".to_vec(),
    });
    let pairs = reader.read_acls(&["/srv/x".to_owned()]);
    assert_eq!(pairs[0].0, "/srv/\u{fffd}");
    assert_eq!(pairs[0].1.entries.len(), 1);
}

#[test]
fn permissions_are_a_lattice() {
    let r = perms("r--");
    let w = perms("-w-");
    assert_eq!(r.union(w), perms("rw-"));
    assert_eq!(perms("rwx").masked(perms("r-x")), perms("r-x"));
    assert!(r.any());
    assert!(!AclPerms::default().any());
    assert_eq!(AclPerms::all().rwx(), "rwx");
}

#[test]
fn short_tags_and_malformed_entries() {
    assert_eq!(
        parse_acl_entry("u:svc:r--").map(|e| e.tag),
        Some(AclTag::User("svc".to_owned()))
    );
    assert_eq!(parse_acl_entry("g::r--").map(|e| e.tag), Some(AclTag::GroupObj));
    assert_eq!(parse_acl_entry("m::r--").map(|e| e.tag), Some(AclTag::Mask));
    assert_eq!(parse_acl_entry("o::r--").map(|e| e.tag), Some(AclTag::Other));
    assert_eq!(parse_acl_entry("user:svc"), None);
    assert_eq!(parse_acl_entry("user:svc:rwz"), None);
    assert_eq!(parse_acl_entry("robot::rwx"), None);
    assert!(AclEntries { entries: Vec::new() }.is_empty());
}
