//! The managed registry: the accounts and groups Census owns or has adopted.

use vstd::prelude::*;

use crate::catalog::Access;
use crate::names::NameMap;

verus! {

/// Where a managed object comes from.
#[derive(Debug, Clone, Copy, PartialEq, Eq, Structural)]
pub enum Provenance {
    /// Census created it.
    Created,
    /// It existed before; Census only added its own grants to it.
    Adopted,
}

/// A file grant recorded for a managed account.
#[derive(Debug)]
pub struct ManagedFileGrant {
    /// The granted path.
    pub path: String,
    /// The granted access.
    pub access: Access,
    /// Whether the grant reaches below the path.
    pub recursive: bool,
}

/// The registry record of one account.
#[derive(Debug)]
pub struct ManagedAccount {
    /// The account name.
    pub name: String,
    /// The recorded uid.
    pub uid: u32,
    /// The recorded shell.
    pub shell: String,
    /// The recorded supplementary groups.
    pub groups: Vec<String>,
    /// The recorded file grants.
    pub file_grants: Vec<ManagedFileGrant>,
}

/// What was seen of a group when it was adopted.
#[derive(Debug)]
pub struct GroupBaseline {
    /// The gid at that time, if it was known.
    pub gid: Option<u32>,
}

/// The registry record of one group.
#[derive(Debug)]
pub struct ManagedGroup {
    /// The group name.
    pub name: String,
    /// The recorded gid, if it was known.
    pub gid: Option<u32>,
    /// Whether Census created or adopted the group.
    pub provenance: Provenance,
    /// The members Census added.
    pub members_added: Vec<String>,
    /// The sudo commands bound to the group.
    pub sudo_commands: Vec<String>,
    /// What was seen when the group was adopted.
    pub adopt_baseline: Option<GroupBaseline>,
}

/// The managed registry, authoritative for what Census manages.
#[derive(Debug)]
pub struct Registry {
    /// The managed accounts by name.
    pub accounts: NameMap<ManagedAccount>,
    /// The managed groups by name.
    pub groups: NameMap<ManagedGroup>,
}

impl Registry {
    /// A registry without accounts and groups.
    pub fn new() -> (r: Self)
        ensures
            r.accounts.seq().len() == 0,
            r.groups.seq().len() == 0,
    {
        Registry { accounts: NameMap::new(), groups: NameMap::new() }
    }
}

} // verus!
