//! The curated lists of the coverage audit.

use vstd::prelude::*;

use crate::catalog;
use crate::text;

verus! {

/// The directories and files whose contents gate authentication, privilege, network
/// and firewall, kernel, audit, and trust on a hardened host.
///
/// A config object counts toward the `config` metric only if it is at or under one of
/// these or is named by a catalog file grant; everything else is low priority.
pub const SECURITY_RELEVANT_CONFIG_PREFIXES: [&'static str; 23] = [
    "/etc/ssh",
    "/etc/pam.d",
    "/etc/sudoers",
    "/etc/sudoers.d",
    "/etc/sysctl.conf",
    "/etc/sysctl.d",
    "/etc/audit",
    "/etc/ssl",
    "/etc/pki",
    "/etc/ca-certificates",
    "/etc/ca-certificates.conf",
    "/etc/polkit-1",
    "/etc/PolicyKit",
    "/etc/systemd",
    "/etc/security",
    "/etc/apparmor.d",
    "/etc/selinux",
    "/etc/modprobe.d",
    "/etc/modules-load.d",
    "/etc/login.defs",
    "/etc/securetty",
    "/etc/sudo.conf",
    "/etc/nsswitch.conf",
];

/// Parent directories too broad to ever grant wholesale: a single config directly in
/// one of these cannot be covered by a directory-only backend without handing out the
/// whole tree.
pub const NON_GRANTABLE_PARENTS: [&'static str; 11] = [
    "/",
    "/etc",
    "/usr",
    "/usr/local",
    "/var",
    "/boot",
    "/opt",
    "/run",
    "/etc/ssl",
    "/etc/pki",
    "/etc/ca-certificates",
];

/// Whether `path` is at or under one of the curated security-relevant prefixes.
pub open spec fn security_relevant(path: Seq<char>) -> bool {
    catalog::under_some(text::str_views(SECURITY_RELEVANT_CONFIG_PREFIXES@), path)
}

/// Whether `path` is at or under one of the curated security-relevant prefixes, on a
/// path-component boundary.
pub fn is_security_relevant_config(path: &str) -> (r: bool)
    ensures
        r == security_relevant(path@),
{
    let list = text::owned_words(&SECURITY_RELEVANT_CONFIG_PREFIXES);
    catalog::path_under_some(list.as_slice(), path)
}

// ---------------------------------------------------------------------------
// Laws
// ---------------------------------------------------------------------------

/// What counts as security-relevant: what is at or under one of these.
pub proof fn security_relevant_trees(path: Seq<char>)
    ensures
        security_relevant(path) <==> {
            ||| catalog::at_or_under("/etc/ssh"@, path)
            ||| catalog::at_or_under("/etc/pam.d"@, path)
            ||| catalog::at_or_under("/etc/sudoers"@, path)
            ||| catalog::at_or_under("/etc/sudoers.d"@, path)
            ||| catalog::at_or_under("/etc/sysctl.conf"@, path)
            ||| catalog::at_or_under("/etc/sysctl.d"@, path)
            ||| catalog::at_or_under("/etc/audit"@, path)
            ||| catalog::at_or_under("/etc/ssl"@, path)
            ||| catalog::at_or_under("/etc/pki"@, path)
            ||| catalog::at_or_under("/etc/ca-certificates"@, path)
            ||| catalog::at_or_under("/etc/ca-certificates.conf"@, path)
            ||| catalog::at_or_under("/etc/polkit-1"@, path)
            ||| catalog::at_or_under("/etc/PolicyKit"@, path)
            ||| catalog::at_or_under("/etc/systemd"@, path)
            ||| catalog::at_or_under("/etc/security"@, path)
            ||| catalog::at_or_under("/etc/apparmor.d"@, path)
            ||| catalog::at_or_under("/etc/selinux"@, path)
            ||| catalog::at_or_under("/etc/modprobe.d"@, path)
            ||| catalog::at_or_under("/etc/modules-load.d"@, path)
            ||| catalog::at_or_under("/etc/login.defs"@, path)
            ||| catalog::at_or_under("/etc/securetty"@, path)
            ||| catalog::at_or_under("/etc/sudo.conf"@, path)
            ||| catalog::at_or_under("/etc/nsswitch.conf"@, path)
        },
{
    let t = text::str_views(SECURITY_RELEVANT_CONFIG_PREFIXES@);
    assert(t[0] == "/etc/ssh"@);
    assert(t[1] == "/etc/pam.d"@);
    assert(t[2] == "/etc/sudoers"@);
    assert(t[3] == "/etc/sudoers.d"@);
    assert(t[4] == "/etc/sysctl.conf"@);
    assert(t[5] == "/etc/sysctl.d"@);
    assert(t[6] == "/etc/audit"@);
    assert(t[7] == "/etc/ssl"@);
    assert(t[8] == "/etc/pki"@);
    assert(t[9] == "/etc/ca-certificates"@);
    assert(t[10] == "/etc/ca-certificates.conf"@);
    assert(t[11] == "/etc/polkit-1"@);
    assert(t[12] == "/etc/PolicyKit"@);
    assert(t[13] == "/etc/systemd"@);
    assert(t[14] == "/etc/security"@);
    assert(t[15] == "/etc/apparmor.d"@);
    assert(t[16] == "/etc/selinux"@);
    assert(t[17] == "/etc/modprobe.d"@);
    assert(t[18] == "/etc/modules-load.d"@);
    assert(t[19] == "/etc/login.defs"@);
    assert(t[20] == "/etc/securetty"@);
    assert(t[21] == "/etc/sudo.conf"@);
    assert(t[22] == "/etc/nsswitch.conf"@);
    assert(t.len() == 23);
}

/// The parents that are never granted: each of these, and nothing else.
pub proof fn parents_never_granted(path: Seq<char>)
    ensures
        text::str_views(NON_GRANTABLE_PARENTS@).contains(path) <==> {
            ||| path == "/"@
            ||| path == "/etc"@
            ||| path == "/usr"@
            ||| path == "/usr/local"@
            ||| path == "/var"@
            ||| path == "/boot"@
            ||| path == "/opt"@
            ||| path == "/run"@
            ||| path == "/etc/ssl"@
            ||| path == "/etc/pki"@
            ||| path == "/etc/ca-certificates"@
        },
{
    let t = text::str_views(NON_GRANTABLE_PARENTS@);
    assert(t[0] == "/"@);
    assert(t[1] == "/etc"@);
    assert(t[2] == "/usr"@);
    assert(t[3] == "/usr/local"@);
    assert(t[4] == "/var"@);
    assert(t[5] == "/boot"@);
    assert(t[6] == "/opt"@);
    assert(t[7] == "/run"@);
    assert(t[8] == "/etc/ssl"@);
    assert(t[9] == "/etc/pki"@);
    assert(t[10] == "/etc/ca-certificates"@);
    assert(t.len() == 11);
}

} // verus!
