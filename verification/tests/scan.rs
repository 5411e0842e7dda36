use census::coverage::capture::{
    run_capture, watch, CaptureOutcome, ChildState, ToolRun, WatchStep,
};
use census::coverage::parse::{
    classify_owner, merge_dpkg_owners, parse_dpkg_conffiles, parse_dpkg_search, parse_etc_group,
    parse_getcap, parse_systemctl_units, OwnerMap,
};
use census::coverage::scan::{
    getcap_args, is_setuid_mode, is_virtual_dir, mode_detail, provenance_queries,
    resolve_provenance, BinEntry, LiveSurface, ScanInputs, DPKG_SEARCH_CHUNK,
};
use census::coverage::setuid::{EntryKind, EntryStat, SetuidAction};
use census::coverage::{CoverageError, Provenance, SurfaceClass, SurfaceObject};

// --- live-scanner pure parsers (in-memory; no shell-out) ----------------

#[test]
fn parse_dpkg_conffiles_keeps_only_etc_paths() {
    // dpkg-query Conffiles: leading whitespace, `<path> <md5>`, sometimes an
    // `obsolete` marker. Only /etc paths are kept; the checksum is ignored.
    let stdout = "\
 /etc/ssh/sshd_config 1a2b3c
 /etc/hosts deadbeef obsolete
 /usr/share/foo/bar.conf 99
 /etc/sudoers cafef00d
";
    let got = parse_dpkg_conffiles(stdout);
    assert_eq!(
        got,
        vec![
            "/etc/ssh/sshd_config".to_owned(),
            "/etc/hosts".to_owned(),
            "/etc/sudoers".to_owned(),
        ]
    );
    // The non-/etc path was filtered out.
    assert!(!got.iter().any(|p| p.starts_with("/usr")));
}

#[test]
fn parse_dpkg_conffiles_dedups() {
    let stdout = "/etc/a x\n/etc/a y\n/etc/b z\n";
    assert_eq!(
        parse_dpkg_conffiles(stdout),
        vec!["/etc/a".to_owned(), "/etc/b".to_owned()]
    );
}

#[test]
fn parse_systemctl_units_takes_service_names_only() {
    let stdout = "\
ssh.service                 enabled enabled
cron.service                enabled enabled
something                   static
2 unit files listed.
";
    let got = parse_systemctl_units(stdout);
    assert_eq!(
        got,
        vec!["ssh.service".to_owned(), "cron.service".to_owned()]
    );
}

#[test]
fn parse_etc_group_takes_names_skips_comments() {
    let text = "\
# a comment
root:x:0:
sudo:x:27:alice,bob

netdev:x:108:
";
    assert_eq!(
        parse_etc_group(text),
        vec!["root".to_owned(), "sudo".to_owned(), "netdev".to_owned()]
    );
}

#[test]
fn parse_getcap_handles_both_formats() {
    // Old getcap: `path caps`; new getcap: `path = caps`.
    let stdout = "\
/usr/bin/ping cap_net_raw+ep
/usr/bin/mtr-packet = cap_net_raw+ep
";
    let got = parse_getcap(stdout);
    assert_eq!(got.len(), 2);
    assert_eq!(
        got[0],
        ("/usr/bin/ping".to_owned(), "cap_net_raw+ep".to_owned())
    );
    assert_eq!(
        got[1],
        (
            "/usr/bin/mtr-packet".to_owned(),
            "cap_net_raw+ep".to_owned()
        )
    );
}

#[test]
fn parse_getcap_path_with_space_keeps_full_path() {
    // A path containing a space must stay intact: the capability token is peeled
    // off the END, not the path truncated at its first space.
    let old_fmt = parse_getcap("/opt/my app/tool cap_net_raw+ep\n");
    assert_eq!(
        old_fmt,
        vec![("/opt/my app/tool".to_owned(), "cap_net_raw+ep".to_owned())]
    );
    let new_fmt = parse_getcap("/opt/my app/tool = cap_net_raw+ep\n");
    assert_eq!(
        new_fmt,
        vec![("/opt/my app/tool".to_owned(), "cap_net_raw+ep".to_owned())]
    );
}

#[test]
fn parse_getcap_embedded_newline_no_phantom() {
    // A path with an embedded newline is split by `lines()` into a fragment with
    // no capability token (`/opt/weird`) and a non-absolute fragment
    // (`name cap_...`). Neither must fabricate an object.
    let got = parse_getcap("/opt/weird\nname cap_net_raw+ep\n");
    assert!(
        got.is_empty(),
        "an embedded-newline split must not fabricate a record: {got:?}"
    );
    // Comma-joined multi-cap token (single whitespace-free token) parses whole.
    let multi = parse_getcap("/usr/bin/foo cap_net_admin,cap_net_raw+ep\n");
    assert_eq!(
        multi,
        vec![(
            "/usr/bin/foo".to_owned(),
            "cap_net_admin,cap_net_raw+ep".to_owned()
        )]
    );
}

#[test]
fn parse_dpkg_conffiles_path_with_space_keeps_full_path() {
    // A conffile path containing a space stays intact (md5/marker peeled off the
    // end); an embedded-newline fragment with no checksum is skipped.
    let stdout = "\
/etc/my app.conf 1a2b3c
/etc/x deadbeef obsolete
/etc/frag
";
    assert_eq!(
        parse_dpkg_conffiles(stdout),
        vec!["/etc/my app.conf".to_owned(), "/etc/x".to_owned()]
    );
}

#[test]
fn parse_dpkg_search_embedded_newline_no_phantom() {
    // A path split by an embedded newline yields a trailing fragment with no
    // `": "` (or one not starting with `/`); it must not become a phantom key.
    let stdout = "\
openssh-server: /etc/ssh/sshd_config
frag-without-prefix
";
    let got = parse_dpkg_search(stdout);
    assert_eq!(got.len(), 1);
    assert_eq!(got[0].0, "/etc/ssh/sshd_config");
}

#[test]
fn parse_dpkg_search_maps_paths_to_packages() {
    let stdout = "\
openssh-server: /etc/ssh/sshd_config
coreutils, mawk: /usr/bin/[
dpkg-query: no path found matching pattern /opt/x
";
    let got = parse_dpkg_search(stdout);
    // Only the two real path lines map; the no-path diagnostic is skipped.
    assert_eq!(got.len(), 2);
    assert_eq!(
        got[0],
        (
            "/etc/ssh/sshd_config".to_owned(),
            "openssh-server".to_owned()
        )
    );
    assert_eq!(got[1].0, "/usr/bin/[");
}

#[test]
fn merge_dpkg_owners_folds_chunks_first_owner_wins() {
    // Simulates the chunked `dpkg -S` pass: several parsed chunk outputs are
    // merged into one owner map. A path is keyed once (first owner wins); a
    // chunk that failed simply contributes nothing.
    let mut acc = OwnerMap::new();
    merge_dpkg_owners(
        &mut acc,
        vec![
            (
                "/etc/ssh/sshd_config".to_owned(),
                "openssh-server".to_owned(),
            ),
            ("/usr/bin/[".to_owned(), "coreutils".to_owned()),
        ],
    );
    merge_dpkg_owners(
        &mut acc,
        vec![
            // duplicate path from a later chunk must not overwrite.
            ("/usr/bin/[".to_owned(), "other-pkg".to_owned()),
            ("/usr/sbin/ip".to_owned(), "iproute2".to_owned()),
        ],
    );
    // An empty chunk (a failed `dpkg` invocation) is a no-op.
    merge_dpkg_owners(&mut acc, vec![]);

    assert_eq!(acc.len(), 3);
    assert_eq!(
        acc.get("/etc/ssh/sshd_config").map(String::as_str),
        Some("openssh-server")
    );
    assert_eq!(
        acc.get("/usr/bin/[").map(String::as_str),
        Some("coreutils"),
        "first owner for a path wins across chunks"
    );
    assert_eq!(
        acc.get("/usr/sbin/ip").map(String::as_str),
        Some("iproute2")
    );
}

#[test]
fn is_setuid_mode_detects_suid_and_sgid() {
    assert!(is_setuid_mode(0o4755)); // setuid
    assert!(is_setuid_mode(0o2755)); // setgid
    assert!(is_setuid_mode(0o6755)); // both
    assert!(!is_setuid_mode(0o0755)); // neither
    assert!(!is_setuid_mode(0o1755)); // sticky only, not suid/sgid
}

#[test]
fn classify_owner_distinguishes_addon_from_vendor() {
    // A base-OS package is Vendor; a recognized add-on prefix is Addon(name).
    assert_eq!(classify_owner("coreutils"), Provenance::Vendor);
    assert_eq!(
        classify_owner("docker-ce"),
        Provenance::Addon("docker-ce".to_owned())
    );
    // First package of a comma list is the nominal owner.
    assert_eq!(classify_owner("coreutils, mawk"), Provenance::Vendor);
}

#[test]
fn is_virtual_dir_skips_proc_sys_run_dev() {
    let root = "/";
    assert!(is_virtual_dir(root, "/proc"));
    assert!(is_virtual_dir(root, "/sys"));
    assert!(is_virtual_dir(root, "/run"));
    assert!(is_virtual_dir(root, "/dev"));
    assert!(!is_virtual_dir(root, "/usr"));
}

// --- run_capture: absent vs degraded vs ok, and the timeout watchdog -----

#[test]
fn run_capture_reports_absent_tool_distinct_from_degraded() {
    // An ABSENT tool (NotFound) is a legitimately-empty class, NOT a
    // degradation — this is what lets a missing optional tool stay non-fatal
    // while a present-but-failing one is reported.
    let out = run_capture("census-no-such-scan-tool-xyzzy", ToolRun::NotFound, false);
    assert!(
        matches!(out, CaptureOutcome::Absent),
        "a missing binary must be Absent, got {out:?}"
    );
}

#[test]
fn run_capture_reports_nonzero_exit_as_degraded() {
    // A tool that is PRESENT but exits non-zero (without accept_partial) is a
    // degradation: parsing a failed/partial listing as complete would silently
    // under-report the surface, so the class must fail closed.
    let out = run_capture("false", ToolRun::Exited(Some(1), Vec::new()), false);
    assert!(
        matches!(out, CaptureOutcome::Degraded(_)),
        "a non-zero exit must degrade, got {out:?}"
    );
}

#[test]
fn run_capture_captures_clean_output() {
    // A clean exit yields the output.
    let out = run_capture("true", ToolRun::Exited(Some(0), Vec::new()), false);
    assert!(matches!(out, CaptureOutcome::Output(_)), "got {out:?}");
}

#[test]
fn run_capture_times_out_a_wedged_tool() {
    // A tool that never returns within the budget degrades (not Absent, not
    // output): the watchdog kills it and reports a timeout, so a hung `getcap` on a
    // wedged mount cannot stall the audit. Uses a short explicit budget so the
    // test does not wait the production minute.
    assert_eq!(watch(ChildState::Running, 149, 150), WatchStep::Sleep);
    let run = match watch(ChildState::Running, 150, 150) {
        WatchStep::Kill(run) => run,
        other => panic!("a wedged tool must be killed, got {other:?}"),
    };
    let out = run_capture("sleep", run, false);
    assert!(
        matches!(out, CaptureOutcome::Degraded(ref r) if r.contains("timed out")),
        "a wedged tool must degrade with a timeout reason, got {out:?}"
    );
}

// --- the scan, class by class ---

#[test]
fn captures_tell_every_failure_apart() {
    let degraded = |run: ToolRun| match run_capture("getcap", run, false) {
        CaptureOutcome::Degraded(r) => r,
        other => panic!("expected a degradation, got {other:?}"),
    };
    assert_eq!(
        degraded(ToolRun::SpawnFailed("denied".to_owned())),
        "getcap: spawn failed: denied"
    );
    assert_eq!(degraded(ToolRun::TimedOut(60)), "getcap: timed out after 60s");
    assert_eq!(
        degraded(ToolRun::WaitFailed("gone".to_owned())),
        "getcap: wait failed: gone"
    );
    assert_eq!(
        degraded(ToolRun::ReadFailed("broken".to_owned())),
        "getcap: stdout read failed: broken"
    );
    assert_eq!(
        degraded(ToolRun::ReaderPanicked),
        "getcap: stdout reader panicked"
    );
    assert_eq!(
        degraded(ToolRun::Exited(Some(-9), Vec::new())),
        "getcap: non-zero exit Some(-9)"
    );
    assert_eq!(
        degraded(ToolRun::Exited(None, b"x".to_vec())),
        "getcap: non-zero exit None"
    );
    assert_eq!(
        degraded(ToolRun::Exited(Some(0), vec![b'a', 0xff])),
        "getcap: output not UTF-8: invalid utf-8 sequence of 1 bytes from index 1"
    );
}

#[test]
fn partial_output_counts_where_it_is_accepted() {
    let run = ToolRun::Exited(Some(1), "h\u{e9}\n".as_bytes().to_vec());
    assert_eq!(
        run_capture("dpkg", run, true),
        CaptureOutcome::Output("h\u{e9}\n".to_owned())
    );
    assert!(matches!(
        run_capture("dpkg", ToolRun::Exited(Some(1), Vec::new()), true),
        CaptureOutcome::Degraded(_)
    ));
}

#[test]
fn the_watch_collects_and_gives_up() {
    assert_eq!(
        watch(ChildState::Exited(Some(0)), 99_999, 1),
        WatchStep::Collect(Some(0))
    );
    assert_eq!(
        watch(ChildState::Running, 60_000, 60_000),
        WatchStep::Kill(ToolRun::TimedOut(60))
    );
    assert_eq!(
        watch(ChildState::Failed("e".to_owned()), 0, 60_000),
        WatchStep::Kill(ToolRun::WaitFailed("e".to_owned()))
    );
}

fn bin(path: &str, canonical: Option<&str>, mode: Option<u32>) -> BinEntry {
    BinEntry {
        path: path.to_owned(),
        canonical: canonical.map(|c| c.to_owned()),
        mode,
    }
}

#[test]
fn sudo_bins_are_keyed_by_their_real_path() {
    let surface = LiveSurface::system();
    let listings = vec![
        None,
        Some(vec![
            bin("/sbin/ip", Some("/usr/sbin/ip"), Some(0o100_755)),
            bin("/usr/sbin/ip", Some("/usr/sbin/ip"), Some(0o100_755)),
            bin("/sbin/dangling", None, None),
        ]),
    ];
    let objects = surface.scan_sudo_bins(&listings).unwrap();
    assert_eq!(objects.len(), 2);
    assert_eq!(objects[0].key, "/usr/sbin/ip");
    assert_eq!(objects[0].detail, "mode 0755");
    assert_eq!(objects[1].key, "/sbin/dangling");
    assert_eq!(objects[1].detail, "");
    let err = surface.scan_sudo_bins(&[None, None]).unwrap_err();
    assert_eq!(
        err,
        CoverageError::Scan("no admin binary directory could be read under /".to_owned())
    );
}

#[test]
fn configs_are_conffiles_and_dropin_directories() {
    let surface = LiveSurface::system();
    let out = CaptureOutcome::Output("/etc/hosts abc\n/etc/sudoers.d abc\n".to_owned());
    let (objects, degraded) = surface.scan_configs(&out, &["/etc/sudoers.d".to_owned()]);
    let keys: Vec<&str> = objects.iter().map(|o| o.key.as_str()).collect();
    assert_eq!(keys, vec!["/etc/hosts", "/etc/sudoers.d"]);
    assert_eq!(objects[1].detail, "conffile");
    assert_eq!(degraded, None);
    let (objects, degraded) = surface.scan_configs(
        &CaptureOutcome::Degraded("dpkg-query: timed out".to_owned()),
        &[],
    );
    assert!(objects.is_empty());
    assert_eq!(degraded.unwrap().class, SurfaceClass::Config);
}

#[test]
fn units_and_capfiles_degrade_by_class() {
    let surface = LiveSurface::system();
    let (objects, degraded) =
        surface.scan_units(&CaptureOutcome::Output("ssh.service enabled\n".to_owned()));
    assert_eq!(objects[0].key, "ssh.service");
    assert_eq!(degraded, None);
    let (objects, degraded) = surface.scan_units(&CaptureOutcome::Absent);
    assert!(objects.is_empty() && degraded.is_none());
    let (objects, degraded) = surface.scan_capfiles(&None);
    assert!(objects.is_empty() && degraded.is_none());
    let (objects, degraded) = surface.scan_capfiles(&Some(CaptureOutcome::Output(
        "/usr/bin/ping cap_net_raw+ep\n".to_owned(),
    )));
    assert_eq!(objects[0].detail, "cap_net_raw+ep");
    assert_eq!(degraded, None);
}

#[test]
fn an_unreadable_group_database_fails_the_scan() {
    let surface = LiveSurface::system();
    let err = surface.scan_groups(&Err("denied".to_owned())).unwrap_err();
    assert_eq!(
        err,
        CoverageError::Scan("cannot read /etc/group: denied".to_owned())
    );
    let ok = surface.scan_groups(&Ok("root:x:0:\n".to_owned())).unwrap();
    assert_eq!(ok[0].key, "root");
}

fn inputs() -> ScanInputs {
    ScanInputs {
        sudo_bins: vec![Some(vec![bin("/sbin/ip", None, None)])],
        conffiles: CaptureOutcome::Degraded("dpkg-query: gone".to_owned()),
        dropins: Vec::new(),
        units: CaptureOutcome::Degraded("systemctl: gone".to_owned()),
        groups: Err("denied".to_owned()),
        capfiles: None,
        setuid: Ok(Vec::new()),
    }
}

#[test]
fn only_what_is_asked_for_is_gathered() {
    let surface = LiveSurface::system();
    let out = surface
        .gather(&[SurfaceClass::Unit, SurfaceClass::SudoBin], inputs())
        .unwrap();
    assert_eq!(out.objects.len(), 1);
    assert_eq!(out.degraded.len(), 1);
    assert_eq!(out.degraded[0].reason, "systemctl: gone");
    assert!(surface.gather(&[SurfaceClass::Group], inputs()).is_err());
}

fn config(key: &str) -> SurfaceObject {
    SurfaceObject {
        class: SurfaceClass::Config,
        key: key.to_owned(),
        provenance: Provenance::Orphan,
        detail: String::new(),
    }
}

#[test]
fn owners_are_asked_for_in_batches() {
    let objects: Vec<SurfaceObject> = (0..DPKG_SEARCH_CHUNK + 1)
        .map(|i| config(&format!("/etc/{i}")))
        .chain(vec![config("not-a-path")])
        .collect();
    let queries = provenance_queries(&objects);
    assert_eq!(queries.len(), 2);
    assert_eq!(queries[0].len(), DPKG_SEARCH_CHUNK + 1);
    assert_eq!(queries[1][0], "-S");
    assert_eq!(queries[1].len(), 2);
    assert_eq!(getcap_args(&[]), None);
    assert_eq!(
        getcap_args(&["/usr".to_owned()]).unwrap(),
        vec!["-r", "/usr"]
    );
}

#[test]
fn owners_decide_the_provenance() {
    let objects = vec![config("/etc/a"), config("/etc/b"), config("/etc/c")];
    let answers = vec![
        CaptureOutcome::Output("docker-ce: /etc/a\n".to_owned()),
        CaptureOutcome::Degraded("dpkg: gone".to_owned()),
        CaptureOutcome::Output("base-files: /etc/b\nother: /etc/a\n".to_owned()),
    ];
    let out = resolve_provenance(&objects, &answers);
    assert_eq!(out[0].provenance, Provenance::Addon("docker-ce".to_owned()));
    assert_eq!(out[1].provenance, Provenance::Vendor);
    assert_eq!(out[2].provenance, Provenance::Orphan);
}

#[test]
fn virtual_directories_reach_below_their_root() {
    assert!(is_virtual_dir("/", "/proc/1/root"));
    assert!(!is_virtual_dir("/", "/process"));
    assert!(is_virtual_dir("/mnt/image", "/mnt/image/sys"));
    assert!(!is_virtual_dir("/mnt/image", "/sys"));
    assert_eq!(mode_detail(Some(0o104_755)), "mode 4755");
    assert_eq!(mode_detail(None), "");
}

#[test]
fn the_setuid_walk_keeps_to_its_device() {
    let surface = LiveSurface::system();
    let err = surface.scan_setuid(Err("denied".to_owned())).err().unwrap();
    assert!(matches!(err, CoverageError::Scan(_)));
    let mut walk = surface.scan_setuid(Ok(7)).ok().unwrap();
    let mut asked: Vec<String> = Vec::new();
    let found = loop {
        walk = match walk.action() {
            SetuidAction::List(dir) => {
                asked.push(dir.clone());
                walk.take_listing(match dir.as_str() {
                    "/" => Ok(vec![
                        "/proc".to_owned(),
                        "/usr".to_owned(),
                        "/mnt".to_owned(),
                        "/link".to_owned(),
                    ]),
                    "/usr" => Ok(vec!["/usr/su".to_owned(), "/usr/ls".to_owned()]),
                    _ => Err("denied".to_owned()),
                })
                .ok()
                .unwrap()
            }
            SetuidAction::Stat(path) => walk.take_entry(match path.as_str() {
                "/proc" | "/usr" => Some(EntryStat {
                    kind: EntryKind::Directory,
                    dev: 7,
                    mode: 0o040_755,
                }),
                "/mnt" => Some(EntryStat {
                    kind: EntryKind::Directory,
                    dev: 8,
                    mode: 0o040_755,
                }),
                "/usr/su" => Some(EntryStat {
                    kind: EntryKind::Regular,
                    dev: 7,
                    mode: 0o104_755,
                }),
                "/usr/ls" => Some(EntryStat {
                    kind: EntryKind::Regular,
                    dev: 7,
                    mode: 0o100_755,
                }),
                _ => None,
            }),
            SetuidAction::Done => break walk.finish(),
        }
    };
    assert_eq!(asked, vec!["/", "/usr"]);
    assert_eq!(found.len(), 1);
    assert_eq!(found[0].key, "/usr/su");
    assert_eq!(found[0].detail, "mode 4755");
    assert_eq!(surface.full_path("/usr/sbin"), "/usr/sbin");
}

#[test]
fn a_scan_root_that_cannot_be_opened_is_fatal() {
    let surface = LiveSurface::system();
    let walk = surface.scan_setuid(Ok(7)).ok().unwrap();
    assert_eq!(walk.action(), SetuidAction::List("/".to_owned()));
    match walk.take_listing(Err("Permission denied (os error 13)".to_owned())) {
        Err(CoverageError::Scan(reason)) => assert_eq!(
            reason,
            "cannot open scan root: Permission denied (os error 13)"
        ),
        _ => panic!("the walk goes on"),
    }
    // An unreadable directory below the root is passed over.
    let walk = surface.scan_setuid(Ok(7)).ok().unwrap();
    let walk = walk.take_listing(Ok(vec!["/locked".to_owned()])).ok().unwrap();
    let walk = walk.take_entry(Some(EntryStat {
        kind: EntryKind::Directory,
        dev: 7,
        mode: 0o040_700,
    }));
    assert_eq!(walk.action(), SetuidAction::List("/locked".to_owned()));
    let walk = walk.take_listing(Err("denied".to_owned())).ok().unwrap();
    assert_eq!(walk.action(), SetuidAction::Done);
    assert!(walk.finish().is_empty());
}

#[test]
fn parse_getcap_takes_off_the_separator_alone() {
    let path_of = |line: &str| parse_getcap(line)[0].0.clone();
    // A path that ends in `=` keeps it, in either form.
    assert_eq!(path_of("/a= cap_net_raw+ep\n"), "/a=");
    assert_eq!(path_of("/a= = cap_net_raw+ep\n"), "/a=");
    assert_eq!(path_of("/a== cap_net_raw+ep\n"), "/a==");
    assert_eq!(path_of("/a =  cap_net_raw+ep\n"), "/a");
    assert_eq!(path_of("/a\t=\tcap_net_raw+ep\n"), "/a");
    assert_eq!(path_of("/a = = cap_net_raw+ep\n"), "/a =");
}
