//! Read-only exposure audit: a permission index of actual filesystem rights.
//!
//! Access is provisioned forward (file-access grants, groups, sudoers). This layer
//! answers the reverse question: what a principal *actually* reaches on disk, beyond
//! the least-privilege intent. It never mutates an OS object; it only reads.
//!
//! Principal resolution reads the local passwd and group databases only, and the
//! verdict is discretionary (mode, owner, groups, POSIX ACL): mandatory layers may
//! restrict actual access further, so the verdict is an upper bound.

use vstd::prelude::*;

pub mod access;
pub mod acl;
pub mod config;
pub mod expose;
pub mod fs_audit;
pub mod glob;
pub mod index;
pub mod mac;
pub mod mounts;
pub mod reach;
pub mod scope;
pub mod taxonomy;
pub mod tree;
pub mod walk;

verus! {

/// The security class of an indexed inode, used to derive a finding's risk and
/// severity.
#[derive(Debug, Clone, Copy, PartialEq, Eq, Structural)]
#[non_exhaustive]
pub enum ObjectClass {
    /// A cron job or spool entry (scheduled execution as another user).
    Cron,
    /// A systemd unit file (defines a privileged service).
    SystemdUnit,
    /// A binary on a system `PATH` directory (run by other users/services).
    PathBinary,
    /// The sudoers policy (`/etc/sudoers` and drop-ins).
    Sudoers,
    /// A security-relevant configuration file.
    Config,
    /// A secret-bearing object (key, credential, shadow).
    Secret,
    /// A setuid/setgid binary (runs with elevated identity).
    SetuidBinary,
    /// Anything not matched by a more specific class.
    Generic,
}

impl Default for ObjectClass {
    /// The class of an object that no rule matches.
    fn default() -> (r: Self)
        ensures
            r == ObjectClass::Generic,
    {
        ObjectClass::Generic
    }
}

impl ObjectClass {
    /// The stable lowercase token of a class.
    pub open spec fn text(self) -> Seq<char> {
        match self {
            ObjectClass::Cron => "cron"@,
            ObjectClass::SystemdUnit => "systemd-unit"@,
            ObjectClass::PathBinary => "path-binary"@,
            ObjectClass::Sudoers => "sudoers"@,
            ObjectClass::Config => "config"@,
            ObjectClass::Secret => "secret"@,
            ObjectClass::SetuidBinary => "setuid-binary"@,
            ObjectClass::Generic => "generic"@,
        }
    }

    /// The stable lowercase token for this class, used in output and filters.
    pub fn as_str(self) -> (r: &'static str)
        ensures
            r@ == self.text(),
    {
        match self {
            ObjectClass::Cron => "cron",
            ObjectClass::SystemdUnit => "systemd-unit",
            ObjectClass::PathBinary => "path-binary",
            ObjectClass::Sudoers => "sudoers",
            ObjectClass::Config => "config",
            ObjectClass::Secret => "secret",
            ObjectClass::SetuidBinary => "setuid-binary",
            ObjectClass::Generic => "generic",
        }
    }
}

/// Errors building the permission index.
///
/// Only the walk is fallible; the ACL read is best-effort and never errors.
#[derive(Debug, PartialEq, Eq)]
#[non_exhaustive]
pub enum ExposureError {
    /// A scan root that exists could not be stat'd (an absent root is skipped, not an
    /// error).
    Walk {
        /// The root that could not be walked.
        root: String,
        /// Why the walk failed.
        reason: String,
    },
}

/// The contents of an [`ExposureError`].
#[verifier::ext_equal]
pub enum ErrorView {
    /// A scan root that exists could not be stat'd.
    Walk {
        /// The root that could not be walked.
        root: Seq<char>,
        /// Why the walk failed.
        reason: Seq<char>,
    },
}

impl View for ExposureError {
    type V = ErrorView;

    open spec fn view(&self) -> ErrorView {
        match self {
            ExposureError::Walk { root, reason } => ErrorView::Walk {
                root: root@,
                reason: reason@,
            },
        }
    }
}

impl ExposureError {
    /// The message of the error.
    pub fn message(&self) -> (r: String)
        ensures
            self@ matches ErrorView::Walk { root, reason } ==> r@ == "cannot walk scan root "@
                + root + ": "@ + reason,
    {
        match self {
            ExposureError::Walk { root, reason } => {
                let mut r = "cannot walk scan root ".to_owned();
                r.append(root);
                r.append(": ");
                r.append(reason);
                r
            },
        }
    }
}

} // verus!
