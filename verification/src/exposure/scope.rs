//! Scan scope: the default security-relevant roots and the pseudo-filesystem roots
//! that are always skipped.

use vstd::prelude::*;

use crate::catalog;
use crate::text;

verus! {

/// Built-in default scan roots: the privileged, ambient-permission-bearing trees.
///
/// `/etc` holds the authentication and privilege config; `/var` covers the cron and at
/// spools and service state; `/opt`, `/usr/local`, and `/srv` hold site software and
/// served data; `/home` and `/root` are operator home directories.
pub const DEFAULT_SCAN_ROOTS: [&'static str; 7] = [
    "/etc",
    "/var",
    "/opt",
    "/usr/local",
    "/srv",
    "/home",
    "/root",
];

/// Pseudo-filesystem roots never walked: kernel-backed mounts whose inode modes do not
/// describe persistent on-disk access.
pub const PSEUDO_FS_ROOTS: [&'static str; 4] = ["/proc", "/sys", "/dev", "/run"];

/// Whether `path` names a pseudo-filesystem root.
pub open spec fn pseudo_fs(path: Seq<char>) -> bool {
    exists|i: int|
        0 <= i < PSEUDO_FS_ROOTS@.len() && catalog::same_path(
            path,
            #[trigger] PSEUDO_FS_ROOTS@[i]@,
        )
}

/// The default scan roots, used when the operator gives no explicit scope.
pub fn default_roots() -> (r: Vec<String>)
    ensures
        text::views(r@) == text::str_views(DEFAULT_SCAN_ROOTS@),
{
    text::owned_words(&DEFAULT_SCAN_ROOTS)
}

/// Whether `path` is a pseudo-filesystem root that must never be walked.
///
/// The paths are compared as a whole: `/proc` matches, an unrelated `/srv/proc` does
/// not.
pub fn is_pseudo_fs(path: &str) -> (r: bool)
    ensures
        r == pseudo_fs(path@),
{
    let list = PSEUDO_FS_ROOTS;
    let mut i: usize = 0;
    while i < list.len()
        invariant
            list == PSEUDO_FS_ROOTS,
            i <= list@.len(),
            forall|j: int|
                0 <= j < i ==> !catalog::same_path(path@, #[trigger] PSEUDO_FS_ROOTS@[j]@),
        decreases list@.len() - i,
    {
        if catalog::paths_equal(path, list[i]) {
            proof {
                assert(catalog::same_path(path@, PSEUDO_FS_ROOTS@[i as int]@));
            }
            return true;
        }
        i += 1;
    }
    false
}

/// Without a scope these trees are walked, in this order.
pub proof fn the_default_roots()
    ensures
        text::str_views(DEFAULT_SCAN_ROOTS@) == seq![
            "/etc"@,
            "/var"@,
            "/opt"@,
            "/usr/local"@,
            "/srv"@,
            "/home"@,
            "/root"@,
        ],
{
    let t = text::str_views(DEFAULT_SCAN_ROOTS@);
    assert(t[0] == "/etc"@);
    assert(t[1] == "/var"@);
    assert(t[2] == "/opt"@);
    assert(t[3] == "/usr/local"@);
    assert(t[4] == "/srv"@);
    assert(t[5] == "/home"@);
    assert(t[6] == "/root"@);
    assert(t.len() == 7);
}

/// The roots that are never walked: the paths of these, and no path below or beside them.
pub proof fn the_pseudo_filesystem_roots(path: Seq<char>)
    ensures
        pseudo_fs(path) <==> {
            ||| catalog::same_path(path, "/proc"@)
            ||| catalog::same_path(path, "/sys"@)
            ||| catalog::same_path(path, "/dev"@)
            ||| catalog::same_path(path, "/run"@)
        },
{
    assert(PSEUDO_FS_ROOTS@[0]@ == "/proc"@);
    assert(PSEUDO_FS_ROOTS@[1]@ == "/sys"@);
    assert(PSEUDO_FS_ROOTS@[2]@ == "/dev"@);
    assert(PSEUDO_FS_ROOTS@[3]@ == "/run"@);
    assert(PSEUDO_FS_ROOTS@.len() == 4);
}

} // verus!
