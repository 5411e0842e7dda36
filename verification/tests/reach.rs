use census::exposure::access::{Principal, ResolvedGroup};
use census::exposure::acl::FakeAclSource;
use census::exposure::index::{FakeWalker, InodeStat, PermissionIndex};
use census::exposure::reach::Reachability;

fn principal(name: &str, uid: u32, groups: &[(&str, u32)]) -> Principal {
    Principal::new(
        name,
        uid,
        groups
            .iter()
            .map(|(n, g)| ResolvedGroup {
                name: (*n).to_owned(),
                gid: *g,
            })
            .collect(),
    )
}

fn stat(path: &str, uid: u32, gid: u32, mode: u32, is_dir: bool) -> InodeStat {
    InodeStat {
        path: path.to_owned(),
        uid,
        gid,
        mode,
        is_dir,
    }
}

/// Build an index from canned stats (no ACLs) over a single root.
fn index_of(stats: Vec<InodeStat>, root: &str) -> (PermissionIndex, Vec<String>) {
    let mut walker = FakeWalker::new();
    for s in stats {
        walker = walker.with(s);
    }
    let mut acl = FakeAclSource::new();
    let roots = vec![root.to_owned()];
    let idx = PermissionIndex::build(&walker, &mut acl, &roots).expect("build");
    (idx, roots)
}

#[test]
fn file_behind_closed_ancestor_is_unreachable() {
    // Root /p is mode 0700 owned by root; the file /p/f under it is mode 0777.
    // A non-root, non-owner principal cannot traverse /p, so /p/f is unreachable
    // and must NOT be a finding.
    let (idx, roots) = index_of(
        vec![
            stat("/p", 0, 0, 0o040_700, true),
            stat("/p/f", 0, 0, 0o100_777, false),
        ],
        "/p",
    );
    let r = Reachability::compute(&idx, &principal("bob", 1001, &[]), &roots);
    assert!(
        !r.is_reachable("/p/f"),
        "file behind 0700 root is unreachable"
    );
    // The root inode itself is reachable to stat (you were handed it), but its
    // children are gated by its missing x.
    assert!(r.is_reachable("/p"), "the root object itself is reachable");
}

#[test]
fn all_ancestors_traversable_makes_target_reachable() {
    // Every ancestor is world-traversable (0755 dirs); the deep file is reached.
    let (idx, roots) = index_of(
        vec![
            stat("/p", 0, 0, 0o040_755, true),
            stat("/p/a", 0, 0, 0o040_755, true),
            stat("/p/a/f", 0, 0, 0o100_666, false),
        ],
        "/p",
    );
    let r = Reachability::compute(&idx, &principal("bob", 1001, &[]), &roots);
    assert!(r.is_reachable("/p/a/f"), "all ancestors give x → reachable");
}

#[test]
fn group_x_on_ancestor_enables_reachability() {
    // The middle directory grants search only to group app (0710); a principal in
    // app can traverse it, a stranger cannot.
    let stats = vec![
        stat("/p", 0, 0, 0o040_755, true),
        stat("/p/a", 0, 50, 0o040_710, true),
        stat("/p/a/f", 0, 0, 0o100_666, false),
    ];
    let (idx, roots) = index_of(stats.clone(), "/p");
    let member = Reachability::compute(&idx, &principal("bob", 1001, &[("app", 50)]), &roots);
    assert!(
        member.is_reachable("/p/a/f"),
        "group member traverses 0710 dir"
    );

    let (idx2, roots2) = index_of(stats, "/p");
    let stranger = Reachability::compute(&idx2, &principal("eve", 1002, &[]), &roots2);
    assert!(
        !stranger.is_reachable("/p/a/f"),
        "non-member cannot traverse 0710 dir"
    );
}

#[test]
fn root_uid_reaches_everything() {
    let (idx, roots) = index_of(
        vec![
            stat("/p", 0, 0, 0o040_700, true),
            stat("/p/f", 0, 0, 0o100_600, false),
        ],
        "/p",
    );
    let r = Reachability::compute(&idx, &principal("root", 0, &[]), &roots);
    assert!(r.is_reachable("/p/f"));
    assert_eq!(r.len(), 2);
    assert!(!r.is_empty());
}

#[test]
fn root_filesystem_scope_does_not_recurse_forever() {
    // `--root /` for a non-root principal: `/` is its own parent, so the climb
    // must terminate at `/` instead of recursing into itself. With `/`
    // world-searchable, a top-level entry's reachability is decided by the x bits
    // on `/` and on itself.
    let (idx, roots) = index_of(
        vec![
            stat("/", 0, 0, 0o040_755, true),
            stat("/etc", 0, 0, 0o040_755, true),
            stat("/etc/passwd", 0, 0, 0o100_644, false),
        ],
        "/",
    );
    let r = Reachability::compute(&idx, &principal("bob", 1001, &[]), &roots);
    assert!(
        r.is_reachable("/etc"),
        "/ and /etc both give x → /etc reachable"
    );
    assert!(
        r.is_reachable("/etc/passwd"),
        "deep entry reachable under world-x /"
    );
}

#[test]
fn root_filesystem_scope_closed_root_blocks_children() {
    // The same `--root /` shape but `/` is mode 0700 owned by root: a non-root
    // principal cannot search it, so everything below is unreachable — and the
    // computation still terminates (no infinite recursion).
    let (idx, roots) = index_of(
        vec![
            stat("/", 0, 0, 0o040_700, true),
            stat("/etc", 0, 0, 0o040_755, true),
        ],
        "/",
    );
    let r = Reachability::compute(&idx, &principal("bob", 1001, &[]), &roots);
    assert!(!r.is_reachable("/etc"), "/ closed → /etc unreachable");
}

#[test]
fn ancestors_outside_of_the_roots_are_taken_as_open() {
    let (idx, roots) = index_of(vec![stat("/deep/p/f", 0, 0, 0o100_666, false)], "/deep/p");
    let r = Reachability::compute(&idx, &principal("bob", 1001, &[]), &roots);
    assert!(
        !r.is_reachable("/deep/p/f"),
        "the directory that holds it is in scope, and not indexed"
    );
    let (idx, roots) = index_of(
        vec![
            stat("/deep/p", 0, 0, 0o040_755, true),
            stat("/deep/p/f", 0, 0, 0o100_666, false),
        ],
        "/deep/p",
    );
    let r = Reachability::compute(&idx, &principal("bob", 1001, &[]), &roots);
    assert!(r.is_reachable("/deep/p/f"), "/deep is not asked about");
    assert!(!r.is_reachable("/deep/p/g"), "what is not indexed is not reached");
}
