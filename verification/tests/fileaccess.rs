use census::catalog::{Access, ResolvedFileGrant, Shape};
use census::fileaccess::{
    acl_capabilities, acl_perm, getfacl_args, process_result, restore_args, revoke_args,
    route_grants, setfacl_args, shape_requires, unsupported_suggestion, AclBackend, Capabilities,
    CommandError, CommandRunner, FakeBackend, FakeCall, FileAccessBackend, FileAccessError,
    Principal, ProcessEnd,
};

fn grant(path: &str, access: Access, recursive: bool, shape: Shape) -> ResolvedFileGrant {
    ResolvedFileGrant {
        path: path.to_owned(),
        access,
        recursive,
        shape,
    }
}

/// A runner that records every (binary, argv) it is asked to run and returns a
/// fixed stdout, so the AclBackend's argv construction and control flow can be
/// asserted without executing real commands.
#[derive(Default)]
struct RecordingRunner {
    calls: Vec<(String, Vec<String>)>,
    stdout: Vec<u8>,
}

impl CommandRunner for RecordingRunner {
    fn run(&mut self, binary: &str, args: &[String]) -> Result<Vec<u8>, CommandError> {
        self.calls.push((binary.to_owned(), args.to_vec()));
        Ok(self.stdout.clone())
    }
}

// --- pure argv construction ---

#[test]
fn setfacl_args_ro_uses_rx_and_default_pass() {
    let g = grant("/etc/ssh", Access::Ro, true, Shape::Dir);
    let args = setfacl_args(&Principal::User("alice".to_owned()), &g);
    assert_eq!(args.len(), 2, "access ACL + default ACL");
    // Access pass: -R --physical -m u:alice:r-X /etc/ssh
    assert_eq!(
        args[0],
        vec!["-R", "--physical", "-m", "u:alice:r-X", "/etc/ssh"]
    );
    // Default pass carries -d.
    assert_eq!(
        args[1],
        vec!["-d", "-R", "--physical", "-m", "u:alice:r-X", "/etc/ssh"]
    );
}

#[test]
fn setfacl_args_rw_uses_rwx() {
    let g = grant("/etc/pam.d", Access::Rw, true, Shape::Dir);
    let args = setfacl_args(&Principal::User("bob".to_owned()), &g);
    assert!(args[0].contains(&"u:bob:rwX".to_owned()));
    assert!(args[1].contains(&"-d".to_owned()));
}

#[test]
fn setfacl_args_group_uses_g_prefix_with_default_pass() {
    // A group grant is the user grant with a `g:` prefix — same -R --physical,
    // same default-ACL pass, only the principal letter differs.
    let g = grant("/srv/shared", Access::Rw, true, Shape::Dir);
    let args = setfacl_args(&Principal::Group("wheel".to_owned()), &g);
    assert_eq!(args.len(), 2, "access ACL + default ACL");
    assert_eq!(
        args[0],
        vec!["-R", "--physical", "-m", "g:wheel:rwX", "/srv/shared"]
    );
    // The default-ACL pass carries -d and the same g: entry.
    assert_eq!(
        args[1],
        vec!["-d", "-R", "--physical", "-m", "g:wheel:rwX", "/srv/shared"]
    );
}

#[test]
fn setfacl_args_user_ro_regression_unchanged() {
    // A user principal takes the u: prefix and r-X.
    let g = grant("/etc/ssh", Access::Ro, true, Shape::Dir);
    let args = setfacl_args(&Principal::User("alice".to_owned()), &g);
    assert_eq!(
        args[0],
        vec!["-R", "--physical", "-m", "u:alice:r-X", "/etc/ssh"]
    );
}

#[test]
fn revoke_args_remove_only_account_entry() {
    let g = grant("/etc/ssh", Access::Rw, true, Shape::Dir);
    let args = revoke_args(&Principal::User("alice".to_owned()), &g);
    assert_eq!(args.len(), 2);
    // -x with u:alice (no perm — removal), access + default. Never names owner
    // or other principals.
    assert_eq!(
        args[0],
        vec!["-R", "--physical", "-x", "u:alice", "/etc/ssh"]
    );
    assert_eq!(
        args[1],
        vec!["-d", "-R", "--physical", "-x", "u:alice", "/etc/ssh"]
    );
    // No argv mentions another principal or chmod/chown.
    for a in args.iter().flatten() {
        assert!(!a.contains("g:") && a != "u:other");
    }
}

#[test]
fn revoke_args_group_removes_only_group_entry() {
    let g = grant("/srv/shared", Access::Rw, true, Shape::Dir);
    let args = revoke_args(&Principal::Group("wheel".to_owned()), &g);
    assert_eq!(args.len(), 2);
    // -x with g:wheel (no perm — removal), access + default. Mirrors the user
    // revoke exactly but on the group entry.
    assert_eq!(
        args[0],
        vec!["-R", "--physical", "-x", "g:wheel", "/srv/shared"]
    );
    assert_eq!(
        args[1],
        vec!["-d", "-R", "--physical", "-x", "g:wheel", "/srv/shared"]
    );
}

#[test]
fn principal_prefix_and_name() {
    let u = Principal::User("alice".to_owned());
    let g = Principal::Group("wheel".to_owned());
    assert_eq!(u.acl_prefix(), "u");
    assert_eq!(u.name(), "alice");
    assert_eq!(g.acl_prefix(), "g");
    assert_eq!(g.name(), "wheel");
}

#[test]
fn getfacl_and_restore_args() {
    assert_eq!(
        getfacl_args("/etc/ssh"),
        vec!["--absolute-names", "-R", "/etc/ssh"]
    );
    let f = "/var/lib/census/rollback/x.snapshot";
    assert_eq!(
        restore_args(f),
        vec!["--restore=/var/lib/census/rollback/x.snapshot"]
    );
}

// --- AclBackend control flow (via recording runner, no real setfacl) ---

fn acl_with(runner: RecordingRunner) -> AclBackend<RecordingRunner> {
    AclBackend::new(runner, "setfacl", "getfacl", "/var/lib/census/rollback")
}

#[test]
fn acl_capabilities_are_dir_only_rewrite_proof() {
    let caps = acl_with(RecordingRunner::default()).capabilities();
    assert!(caps.dir);
    assert!(caps.rewrite_proof);
    assert!(!caps.per_path);
    assert!(!caps.pattern);
    assert!(!caps.realtime);
}

#[test]
fn acl_materialize_runs_both_setfacl_passes() {
    let mut b = acl_with(RecordingRunner::default());
    let g = grant("/etc/ssh", Access::Rw, true, Shape::Dir);
    b.materialize(
        &Principal::User("alice".to_owned()),
        std::slice::from_ref(&g),
        &[false],
    )
    .unwrap();
    assert_eq!(b.runner.calls.len(), 2);
    assert!(b.runner.calls.iter().all(|(bin, _)| bin == "setfacl"));
}

#[test]
fn acl_materialize_group_writes_g_entries() {
    let mut b = acl_with(RecordingRunner::default());
    let g = grant("/srv/shared", Access::Rw, true, Shape::Dir);
    b.materialize(
        &Principal::Group("wheel".to_owned()),
        std::slice::from_ref(&g),
        &[false],
    )
    .unwrap();
    // Both setfacl passes carry the g:wheel entry (access + default), proving the
    // group principal flows through to the real argv the backend would run.
    assert_eq!(b.runner.calls.len(), 2);
    assert_eq!(
        b.runner.calls[0].1,
        vec!["-R", "--physical", "-m", "g:wheel:rwX", "/srv/shared"]
    );
    assert_eq!(
        b.runner.calls[1].1,
        vec!["-d", "-R", "--physical", "-m", "g:wheel:rwX", "/srv/shared"]
    );
}

#[test]
fn acl_refuses_symlinked_grant_root() {
    // A symlink planted AT the grant path would let `setfacl -R` resolve the
    // root and walk the link target, escaping the intended tree. The backend
    // must refuse a root that an lstat found to be a symlink before running any command.
    let mut b = acl_with(RecordingRunner::default());
    let g = grant("/srv/grant-link", Access::Rw, true, Shape::Dir);
    let err = b
        .materialize(
            &Principal::User("alice".to_owned()),
            std::slice::from_ref(&g),
            &[true],
        )
        .unwrap_err();
    assert!(
        matches!(err, FileAccessError::Symlink { .. }),
        "symlinked grant root must be refused: {err:?}"
    );
    // Refused before running any setfacl.
    assert!(
        b.runner.calls.is_empty(),
        "no command must run for a symlink root"
    );
}

#[test]
fn acl_materialize_allows_real_directory_root() {
    // The dual of the symlink rejection: a genuine (non-symlink) directory root
    // passes the lstat guard and the setfacl passes run.
    let mut b = acl_with(RecordingRunner::default());
    let g = grant("/srv/real-tree", Access::Rw, true, Shape::Dir);
    b.materialize(
        &Principal::User("alice".to_owned()),
        std::slice::from_ref(&g),
        &[false],
    )
    .unwrap();
    assert_eq!(
        b.runner.calls.len(),
        2,
        "both setfacl passes run for a real dir root"
    );
}

#[test]
fn acl_refuses_non_dir_grant() {
    let mut b = acl_with(RecordingRunner::default());
    let g = grant("/etc/ssh/sshd_config", Access::Rw, false, Shape::File);
    let err = b
        .materialize(
            &Principal::User("alice".to_owned()),
            std::slice::from_ref(&g),
            &[false],
        )
        .unwrap_err();
    assert!(
        matches!(err, FileAccessError::Unsupported { ref shape, .. } if *shape == Shape::File)
    );
    // It refused before running any command.
    assert!(b.runner.calls.is_empty());
}

#[test]
fn acl_revoke_runs_two_passes() {
    let mut b = acl_with(RecordingRunner::default());
    let g = grant("/etc/ssh", Access::Rw, true, Shape::Dir);
    b.revoke(&Principal::User("alice".to_owned()), &g).unwrap();
    assert_eq!(b.runner.calls.len(), 2);
}

#[test]
fn acl_snapshot_writes_rollback_and_restore_replays_it() {
    let runner = RecordingRunner {
        stdout: b"# file: /etc/ssh\nuser::rwx\n".to_vec(),
        ..Default::default()
    };
    let mut b = AclBackend::new(runner, "setfacl", "getfacl", "/var/lib/census/rollback");
    let dump = b.snapshot(&["/etc/ssh".to_owned()]).unwrap();
    assert_eq!(dump, b"# file: /etc/ssh\nuser::rwx\n".to_vec());
    let snap = "/var/lib/census/rollback/file-access-acl.snapshot";
    assert_eq!(b.snapshot_file(), snap);
    // The caller wrote the dump; the backend takes note of the file.
    b.keep_snapshot(Ok(()), Ok(())).unwrap();
    assert_eq!(b.last_snapshot.as_deref(), Some(snap));
    // restore replays via setfacl --restore=<file>.
    b.restore().unwrap();
    let last = b.runner.calls.last().unwrap();
    assert_eq!(last.0, "setfacl");
    assert!(last.1[0].starts_with("--restore="));
}

#[test]
fn acl_restore_without_snapshot_is_noop() {
    let mut b = acl_with(RecordingRunner::default());
    b.restore().unwrap();
    assert!(b.runner.calls.is_empty());
}

#[test]
fn acl_setfacl_failure_surfaces_error() {
    struct FailRunner;
    impl CommandRunner for FailRunner {
        fn run(&mut self, binary: &str, _args: &[String]) -> Result<Vec<u8>, CommandError> {
            Err(CommandError::NonZero {
                binary: binary.to_owned(),
                status: "exit status: 1".to_owned(),
                stderr: "No such file".to_owned(),
            })
        }
    }
    let mut b = AclBackend::new(FailRunner, "setfacl", "getfacl", "/var/lib/census/rollback");
    let g = grant("/etc/ssh", Access::Rw, true, Shape::Dir);
    let err = b
        .materialize(
            &Principal::User("alice".to_owned()),
            std::slice::from_ref(&g),
            &[false],
        )
        .unwrap_err();
    assert!(matches!(err, FileAccessError::Setfacl { ref path, .. } if path == "/etc/ssh"));
}

// --- FakeBackend records calls ---

#[test]
fn fake_backend_records_calls() {
    let caps = Capabilities {
        dir: true,
        per_path: true,
        pattern: true,
        realtime: false,
        rewrite_proof: false,
    };
    let mut f = FakeBackend::new("fake", caps);
    let g = grant("/etc/ssh", Access::Rw, true, Shape::Dir);
    f.materialize(
        &Principal::User("alice".to_owned()),
        std::slice::from_ref(&g),
    )
    .unwrap();
    f.revoke(&Principal::User("alice".to_owned()), &g).unwrap();
    f.snapshot(&["/etc/ssh".to_owned()]).unwrap();
    f.restore().unwrap();
    assert_eq!(
        f.calls,
        vec![
            FakeCall::Materialize {
                principal: Principal::User("alice".to_owned()),
                paths: vec!["/etc/ssh".to_owned()],
            },
            FakeCall::Revoke {
                principal: Principal::User("alice".to_owned()),
                path: "/etc/ssh".to_owned(),
            },
            FakeCall::Snapshot {
                paths: vec!["/etc/ssh".to_owned()],
            },
            FakeCall::Restore,
        ]
    );
}

// --- capability gating (route_grants) ---

fn acl_caps() -> Capabilities {
    acl_capabilities()
}

#[test]
fn route_dir_grant_to_acl_backend() {
    let acl = FakeBackend::new("acl", acl_caps());
    let backends: Vec<&dyn FileAccessBackend> = vec![&acl];
    let grants = vec![grant("/etc/ssh", Access::Rw, true, Shape::Dir)];
    let routed = route_grants(&grants, &backends).unwrap();
    assert_eq!(routed.len(), 1);
    assert_eq!(routed[0].0, 0, "routed to backend index 0 (acl)");
    assert_eq!(routed[0].1.path, "/etc/ssh");
}

#[test]
fn route_file_grant_with_only_acl_is_unsupported() {
    let acl = FakeBackend::new("acl", acl_caps());
    let backends: Vec<&dyn FileAccessBackend> = vec![&acl];
    let grants = vec![grant(
        "/etc/ssh/sshd_config",
        Access::Rw,
        false,
        Shape::File,
    )];
    let err = route_grants(&grants, &backends).unwrap_err();
    match err {
        FileAccessError::Unsupported { shape, reason, .. } => {
            assert_eq!(shape, Shape::File);
            assert!(
                reason.contains("widen") && reason.contains("directory"),
                "file-shape suggestion must mention widening to a directory: {reason}"
            );
        }
        other => panic!("expected Unsupported, got {other:?}"),
    }
}

#[test]
fn route_pattern_grant_with_only_acl_is_unsupported() {
    let acl = FakeBackend::new("acl", acl_caps());
    let backends: Vec<&dyn FileAccessBackend> = vec![&acl];
    let grants = vec![grant("/var/log/*.log", Access::Ro, false, Shape::Pattern)];
    let err = route_grants(&grants, &backends).unwrap_err();
    match err {
        FileAccessError::Unsupported { shape, reason, .. } => {
            assert_eq!(shape, Shape::Pattern);
            assert!(
                reason.contains("pattern"),
                "pattern suggestion must mention a pattern-capable backend: {reason}"
            );
        }
        other => panic!("expected Unsupported, got {other:?}"),
    }
}

#[test]
fn route_file_and_pattern_to_capable_fake_backend() {
    // An ACL backend (dir only) plus a capable backend (per_path + pattern):
    // dir routes to acl, file/pattern route to the capable one.
    let acl = FakeBackend::new("acl", acl_caps());
    let capable = FakeBackend::new(
        "watch",
        Capabilities {
            dir: false,
            per_path: true,
            pattern: true,
            realtime: false,
            rewrite_proof: false,
        },
    );
    let backends: Vec<&dyn FileAccessBackend> = vec![&acl, &capable];
    let grants = vec![
        grant("/etc/ssh", Access::Rw, true, Shape::Dir),
        grant("/etc/ssh/sshd_config", Access::Rw, false, Shape::File),
        grant("/var/log/*.log", Access::Ro, false, Shape::Pattern),
    ];
    let routed = route_grants(&grants, &backends).unwrap();
    assert_eq!(routed.len(), 3);
    assert_eq!(routed[0].0, 0, "dir → acl (index 0)");
    assert_eq!(routed[1].0, 1, "file → watch (index 1)");
    assert_eq!(routed[2].0, 1, "pattern → watch (index 1)");
}

#[test]
fn route_fails_closed_on_first_unsupported() {
    // A mix where one grant is unroutable: the whole route fails (fail-closed),
    // it does not return a partial routing.
    let acl = FakeBackend::new("acl", acl_caps());
    let backends: Vec<&dyn FileAccessBackend> = vec![&acl];
    let grants = vec![
        grant("/etc/ssh", Access::Rw, true, Shape::Dir),
        grant("/var/log/*.log", Access::Ro, false, Shape::Pattern),
    ];
    assert!(route_grants(&grants, &backends).is_err());
}

// --- errors, in words ---

/// A runner that answers by a script, and keeps count of what it ran.
struct ScriptedRunner {
    replies: Vec<Result<Vec<u8>, CommandError>>,
    calls: Vec<(String, Vec<String>)>,
}

impl CommandRunner for ScriptedRunner {
    fn run(&mut self, binary: &str, args: &[String]) -> Result<Vec<u8>, CommandError> {
        self.calls.push((binary.to_owned(), args.to_vec()));
        self.replies.remove(0)
    }
}

fn broken() -> CommandError {
    CommandError::NonZero {
        binary: "setfacl".to_owned(),
        status: "exit status: 1".to_owned(),
        stderr: "denied".to_owned(),
    }
}

#[test]
fn command_errors_say_what_happened() {
    let spawn = CommandError::Spawn {
        binary: "setfacl".to_owned(),
        source: "not found".to_owned(),
    };
    assert_eq!(spawn.message(), "spawn setfacl failed: not found");
    assert_eq!(broken().message(), "setfacl exited exit status: 1: denied");
}

#[test]
fn file_access_errors_quote_their_path() {
    let unsupported = FileAccessError::Unsupported {
        path: "/a \"b\"".to_owned(),
        shape: Shape::File,
        reason: "why".to_owned(),
    };
    assert_eq!(
        unsupported.message(),
        "file grant \"/a \\\"b\\\"\" (File) is not supported by any installed backend: why"
    );
    let failed = FileAccessError::Setfacl {
        path: "/a".to_owned(),
        source: broken(),
    };
    assert_eq!(
        failed.message(),
        "setfacl/getfacl failed for \"/a\": setfacl exited exit status: 1: denied"
    );
    let io = FileAccessError::Io {
        path: "/r".to_owned(),
        reason: "full".to_owned(),
    };
    assert_eq!(io.message(), "file-access rollback I/O error at /r: full");
    let link = FileAccessError::Symlink {
        path: "/l".to_owned(),
    };
    assert_eq!(
        link.message(),
        "file grant path \"/l\" is a symlink; refusing to apply ACLs through it"
    );
}

#[test]
fn a_finished_process_is_output_or_an_error() {
    assert_eq!(
        process_result("getfacl", ProcessEnd::Succeeded(b"x".to_vec())),
        Ok(b"x".to_vec())
    );
    assert_eq!(
        process_result("getfacl", ProcessEnd::NotSpawned("gone".to_owned())),
        Err(CommandError::Spawn {
            binary: "getfacl".to_owned(),
            source: "gone".to_owned(),
        })
    );
    // Standard error is read as text, with what is not text replaced, and trimmed.
    assert_eq!(
        process_result(
            "getfacl",
            ProcessEnd::Failed("exit status: 2".to_owned(), b"  bad \xff byte\n".to_vec())
        ),
        Err(CommandError::NonZero {
            binary: "getfacl".to_owned(),
            status: "exit status: 2".to_owned(),
            stderr: "bad \u{fffd} byte".to_owned(),
        })
    );
}

#[test]
fn materialize_stops_at_the_first_failure() {
    let runner = ScriptedRunner {
        replies: vec![Ok(Vec::new()), Err(broken())],
        calls: Vec::new(),
    };
    let mut b = AclBackend::production(runner, "/rollback");
    let grants = vec![
        grant("/srv/a", Access::Ro, true, Shape::Dir),
        grant("/srv/b", Access::Ro, true, Shape::Dir),
    ];
    let err = b
        .materialize(&Principal::User("u".to_owned()), &grants, &[false, false])
        .unwrap_err();
    assert_eq!(
        err,
        FileAccessError::Setfacl {
            path: "/srv/a".to_owned(),
            source: broken(),
        }
    );
    assert_eq!(b.runner.calls.len(), 2, "nothing runs after a failure");
}

#[test]
fn materialize_applies_what_comes_before_a_refusal() {
    let mut b = acl_with(RecordingRunner::default());
    let grants = vec![
        grant("/srv/a", Access::Ro, true, Shape::Dir),
        grant("/srv/b", Access::Ro, true, Shape::Dir),
    ];
    let err = b
        .materialize(&Principal::User("u".to_owned()), &grants, &[false, true])
        .unwrap_err();
    assert_eq!(
        err,
        FileAccessError::Symlink {
            path: "/srv/b".to_owned()
        }
    );
    assert_eq!(b.runner.calls.len(), 2);
}

#[test]
fn snapshot_joins_the_dumps_in_order() {
    let runner = ScriptedRunner {
        replies: vec![Ok(b"one\n".to_vec()), Ok(b"two\n".to_vec())],
        calls: Vec::new(),
    };
    let mut b = AclBackend::production(runner, "/rollback");
    assert_eq!(b.name(), "acl");
    let dump = b
        .snapshot(&["/a".to_owned(), "/b".to_owned()])
        .unwrap();
    assert_eq!(dump, b"one\ntwo\n".to_vec());
    assert_eq!(b.runner.calls[1].0, "getfacl");
    assert_eq!(b.runner.calls[1].1, vec!["--absolute-names", "-R", "/b"]);
    assert_eq!(b.last_snapshot, None, "nothing was written yet");
}

#[test]
fn a_snapshot_that_cannot_be_kept_is_an_error() {
    let mut b = acl_with(RecordingRunner::default());
    assert_eq!(
        b.keep_snapshot(Err("read-only".to_owned()), Ok(())),
        Err(FileAccessError::Io {
            path: "/var/lib/census/rollback".to_owned(),
            reason: "read-only".to_owned(),
        })
    );
    assert_eq!(
        b.keep_snapshot(Ok(()), Err("full".to_owned())),
        Err(FileAccessError::Io {
            path: "/var/lib/census/rollback/file-access-acl.snapshot".to_owned(),
            reason: "full".to_owned(),
        })
    );
    assert_eq!(b.last_snapshot, None);
    b.restore().unwrap();
    assert!(b.runner.calls.is_empty());
}

#[test]
fn shapes_ask_for_their_capability() {
    let acl = acl_capabilities();
    assert!(shape_requires(Shape::Dir, &acl));
    assert!(!shape_requires(Shape::File, &acl));
    assert!(!shape_requires(Shape::Pattern, &acl));
    assert_eq!(acl_perm(Access::Ro), "r-X");
    assert_eq!(acl_perm(Access::Rw), "rwX");
    assert_eq!(
        unsupported_suggestion(Shape::Dir),
        "no backend provides directory enforcement; install the ACL backend"
    );
}

#[test]
fn routing_without_backends_refuses_the_first_grant() {
    let grants = vec![
        grant("/srv/a", Access::Ro, true, Shape::Dir),
        grant("/srv/b", Access::Ro, false, Shape::File),
    ];
    let backends: Vec<&dyn FileAccessBackend> = Vec::new();
    let err = route_grants(&grants, &backends).unwrap_err();
    assert_eq!(
        err,
        FileAccessError::Unsupported {
            path: "/srv/a".to_owned(),
            shape: Shape::Dir,
            reason: "no backend provides directory enforcement; install the ACL backend".to_owned(),
        }
    );
    assert!(route_grants(&[], &backends).unwrap().is_empty());
}

#[test]
fn no_operation_changes_the_programs_or_the_rollback_directory() {
    let mut b = AclBackend::new(RecordingRunner::default(), "/opt/sf", "/opt/gf", "/rb");
    let principal = Principal::Group("ops".to_owned());
    let grants = vec![
        grant("/srv/a", Access::Ro, true, Shape::Dir),
        grant("/srv/b", Access::Rw, true, Shape::Dir),
    ];
    b.materialize(&principal, &grants, &[false, false]).unwrap();
    b.revoke(&principal, &grants[0]).unwrap();
    b.snapshot(&["/srv/a".to_owned()]).unwrap();
    b.keep_snapshot(Ok(()), Ok(())).unwrap();
    b.restore().unwrap();
    assert_eq!(b.setfacl_bin, "/opt/sf");
    assert_eq!(b.getfacl_bin, "/opt/gf");
    assert_eq!(b.rollback_dir, "/rb");
    let binaries: Vec<&str> = b.runner.calls.iter().map(|c| c.0.as_str()).collect();
    assert_eq!(
        binaries,
        vec!["/opt/sf", "/opt/sf", "/opt/sf", "/opt/sf", "/opt/sf", "/opt/sf", "/opt/gf", "/opt/sf"]
    );
}
