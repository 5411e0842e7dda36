//! What was read of the live system: accounts, groups, password locks, ACL entries.
//!
//! The facts are gathered once and then only looked at, so every rule that consults
//! them sees one consistent view of the host.

use vstd::prelude::*;

use crate::names::NameMap;
use crate::text;

verus! {

broadcast use vstd::string::group_string_axioms;

/// The passwd facts of one account.
#[derive(Debug)]
pub struct AccountFacts {
    /// The numeric uid.
    pub uid: u32,
    /// The login shell.
    pub shell: String,
    /// The home directory.
    pub home: String,
    /// The supplementary groups, by name.
    pub groups: Vec<String>,
}

/// The group-database facts of one group.
#[derive(Debug, Clone, Copy, PartialEq, Eq, Structural)]
pub struct GroupFacts {
    /// The numeric gid.
    pub gid: u32,
}

/// Whether an account was seen to have its own ACL entry on a path.
#[derive(Debug)]
pub struct FileAclFact {
    /// The path that was looked at.
    pub path: String,
    /// The account whose entry was looked for.
    pub account: String,
    /// Whether the entry was there.
    pub present: bool,
}

/// The facts read of one host.
#[derive(Debug)]
pub struct HostFacts {
    /// The accounts of the passwd database.
    pub accounts: NameMap<AccountFacts>,
    /// The primary gid of each account whose gid could be read.
    pub primary_gids: NameMap<u32>,
    /// The groups of the group database.
    pub groups: NameMap<GroupFacts>,
    /// The members of each group whose list could be read.
    pub group_members: NameMap<Vec<String>>,
    /// Whether the sudoers fragment of a group was seen.
    pub group_sudoers_fragments: NameMap<bool>,
    /// Whether the password of an account is locked, for each shadow row.
    pub locked: NameMap<bool>,
    /// Whether the shadow database could not be read at all.
    pub shadow_unreadable: bool,
    /// The accounts that carry a Census marker in their GECOS field.
    pub marked: Vec<String>,
    /// The accounts that can log in.
    pub login_capable: Vec<String>,
    /// The accounts with an `authorized_keys` file in their home.
    pub authorized_keys: Vec<String>,
    /// The ACL entries that were looked for.
    pub file_acls: Vec<FileAclFact>,
}

/// The first name, in order, of an account with this uid.
pub open spec fn name_with_uid(
    accounts: Seq<(Seq<char>, AccountFacts)>,
    uid: u32,
) -> Option<Seq<char>>
    decreases accounts.len(),
{
    if accounts.len() == 0 {
        None
    } else if accounts[0].1.uid == uid {
        Some(accounts[0].0)
    } else {
        name_with_uid(accounts.skip(1), uid)
    }
}

/// The first name, in order, of a group with this gid.
pub open spec fn name_with_gid(groups: Seq<(Seq<char>, GroupFacts)>, gid: u32) -> Option<Seq<char>>
    decreases groups.len(),
{
    if groups.len() == 0 {
        None
    } else if groups[0].1.gid == gid {
        Some(groups[0].0)
    } else {
        name_with_gid(groups.skip(1), gid)
    }
}

/// What was seen of the entry of `account` on `path`, if it was looked for.
pub open spec fn acl_fact(
    facts: Seq<FileAclFact>,
    path: Seq<char>,
    account: Seq<char>,
) -> Option<bool>
    decreases facts.len(),
{
    if facts.len() == 0 {
        None
    } else if facts[0].path@ == path && facts[0].account@ == account {
        Some(facts[0].present)
    } else {
        acl_fact(facts.skip(1), path, account)
    }
}

/// The text of an optional string.
pub open spec fn opt_text(s: Option<String>) -> Option<Seq<char>> {
    match s {
        Some(s) => Some(s@),
        None => None,
    }
}

/// The text of an optional string slice.
pub open spec fn opt_str(s: Option<&str>) -> Option<Seq<char>> {
    match s {
        Some(s) => Some(s@),
        None => None,
    }
}

impl HostFacts {
    /// The members of a group; none where the list could not be read.
    pub open spec fn members(&self, group: Seq<char>) -> Seq<Seq<char>> {
        match self.group_members.lookup(group) {
            Some(v) => text::views(v@),
            None => seq![],
        }
    }

    /// Facts of a host of which nothing was read.
    pub fn new() -> (r: Self)
        ensures
            r.accounts.seq().len() == 0,
            r.primary_gids.seq().len() == 0,
            r.groups.seq().len() == 0,
            r.group_members.seq().len() == 0,
            r.group_sudoers_fragments.seq().len() == 0,
            r.locked.seq().len() == 0,
            !r.shadow_unreadable,
            r.marked@.len() == 0,
            r.login_capable@.len() == 0,
            r.authorized_keys@.len() == 0,
            r.file_acls@.len() == 0,
    {
        HostFacts {
            accounts: NameMap::new(),
            primary_gids: NameMap::new(),
            groups: NameMap::new(),
            group_members: NameMap::new(),
            group_sudoers_fragments: NameMap::new(),
            locked: NameMap::new(),
            shadow_unreadable: false,
            marked: Vec::new(),
            login_capable: Vec::new(),
            authorized_keys: Vec::new(),
            file_acls: Vec::new(),
        }
    }

    /// The first name, in order, of an account with this uid.
    pub fn account_name_by_uid(&self, uid: u32) -> (r: Option<String>)
        ensures
            opt_text(r) == name_with_uid(self.accounts.seq(), uid),
    {
        let n = self.accounts.len();
        let mut i: usize = 0;
        proof {
            assert(self.accounts.seq().skip(0) =~= self.accounts.seq());
        }
        while i < n
            invariant
                n == self.accounts.seq().len(),
                i <= n,
                name_with_uid(self.accounts.seq(), uid) == name_with_uid(
                    self.accounts.seq().skip(i as int),
                    uid,
                ),
            decreases n - i,
        {
            proof {
                assert(self.accounts.seq().skip(i as int).skip(1) =~= self.accounts.seq().skip(
                    i + 1,
                ));
            }
            if self.accounts.value_at(i).uid == uid {
                return Some(self.accounts.key_at(i).clone());
            }
            i += 1;
        }
        None
    }

    /// The first name, in order, of a group with this gid.
    pub fn group_name_by_gid(&self, gid: u32) -> (r: Option<String>)
        ensures
            opt_text(r) == name_with_gid(self.groups.seq(), gid),
    {
        let n = self.groups.len();
        let mut i: usize = 0;
        proof {
            assert(self.groups.seq().skip(0) =~= self.groups.seq());
        }
        while i < n
            invariant
                n == self.groups.seq().len(),
                i <= n,
                name_with_gid(self.groups.seq(), gid) == name_with_gid(
                    self.groups.seq().skip(i as int),
                    gid,
                ),
            decreases n - i,
        {
            proof {
                assert(self.groups.seq().skip(i as int).skip(1) =~= self.groups.seq().skip(i + 1));
            }
            if self.groups.value_at(i).gid == gid {
                return Some(self.groups.key_at(i).clone());
            }
            i += 1;
        }
        None
    }

    /// What was seen of the entry of `account` on `path`, if it was looked for.
    pub fn file_access_present(&self, path: &str, account: &str) -> (r: Option<bool>)
        ensures
            r == acl_fact(self.file_acls@, path@, account@),
    {
        let mut i: usize = 0;
        proof {
            assert(self.file_acls@.skip(0) =~= self.file_acls@);
        }
        while i < self.file_acls.len()
            invariant
                i <= self.file_acls@.len(),
                acl_fact(self.file_acls@, path@, account@) == acl_fact(
                    self.file_acls@.skip(i as int),
                    path@,
                    account@,
                ),
            decreases self.file_acls@.len() - i,
        {
            proof {
                assert(self.file_acls@.skip(i as int).skip(1) =~= self.file_acls@.skip(i + 1));
            }
            let f = &self.file_acls[i];
            if text::same(&f.path, path) && text::same(&f.account, account) {
                return Some(f.present);
            }
            i += 1;
        }
        None
    }
}

// ---------------------------------------------------------------------------
// Laws
// ---------------------------------------------------------------------------

/// A uid is known by the first account that has it, and by none where none has it.
pub proof fn uids_are_known_by_the_first_account(
    accounts: Seq<(Seq<char>, AccountFacts)>,
    uid: u32,
)
    ensures
        match name_with_uid(accounts, uid) {
            None => forall|i: int|
                0 <= i < accounts.len() ==> (#[trigger] accounts[i]).1.uid != uid,
            Some(name) => exists|i: int|
                {
                    &&& 0 <= i < accounts.len()
                    &&& (#[trigger] accounts[i]).0 == name
                    &&& accounts[i].1.uid == uid
                    &&& forall|j: int| 0 <= j < i ==> (#[trigger] accounts[j]).1.uid != uid
                },
        },
    decreases accounts.len(),
{
    if accounts.len() > 0 && accounts[0].1.uid != uid {
        let rest = accounts.skip(1);
        uids_are_known_by_the_first_account(rest, uid);
        match name_with_uid(rest, uid) {
            None => {
                assert forall|i: int| 0 <= i < accounts.len() implies (#[trigger] accounts[i]).1.uid
                    != uid by {
                    if i > 0 {
                        assert(rest[i - 1] == accounts[i]);
                    }
                }
            },
            Some(name) => {
                let i = choose|i: int|
                    {
                        &&& 0 <= i < rest.len()
                        &&& (#[trigger] rest[i]).0 == name
                        &&& rest[i].1.uid == uid
                        &&& forall|j: int| 0 <= j < i ==> (#[trigger] rest[j]).1.uid != uid
                    };
                assert(accounts[i + 1] == rest[i]);
                assert forall|j: int|
                    0 <= j < i + 1 implies (#[trigger] accounts[j]).1.uid != uid by {
                    if j > 0 {
                        assert(rest[j - 1] == accounts[j]);
                    }
                }
            },
        }
    } else if accounts.len() > 0 {
        assert(accounts[0].1.uid == uid);
    }
}

/// A gid is known by the first group that has it, and by none where none has it.
pub proof fn gids_are_known_by_the_first_group(groups: Seq<(Seq<char>, GroupFacts)>, gid: u32)
    ensures
        match name_with_gid(groups, gid) {
            None => forall|i: int| 0 <= i < groups.len() ==> (#[trigger] groups[i]).1.gid != gid,
            Some(name) => exists|i: int|
                {
                    &&& 0 <= i < groups.len()
                    &&& (#[trigger] groups[i]).0 == name
                    &&& groups[i].1.gid == gid
                    &&& forall|j: int| 0 <= j < i ==> (#[trigger] groups[j]).1.gid != gid
                },
        },
    decreases groups.len(),
{
    if groups.len() > 0 && groups[0].1.gid != gid {
        let rest = groups.skip(1);
        gids_are_known_by_the_first_group(rest, gid);
        match name_with_gid(rest, gid) {
            None => {
                assert forall|i: int| 0 <= i < groups.len() implies (#[trigger] groups[i]).1.gid
                    != gid by {
                    if i > 0 {
                        assert(rest[i - 1] == groups[i]);
                    }
                }
            },
            Some(name) => {
                let i = choose|i: int|
                    {
                        &&& 0 <= i < rest.len()
                        &&& (#[trigger] rest[i]).0 == name
                        &&& rest[i].1.gid == gid
                        &&& forall|j: int| 0 <= j < i ==> (#[trigger] rest[j]).1.gid != gid
                    };
                assert(groups[i + 1] == rest[i]);
                assert forall|j: int|
                    0 <= j < i + 1 implies (#[trigger] groups[j]).1.gid != gid by {
                    if j > 0 {
                        assert(rest[j - 1] == groups[j]);
                    }
                }
            },
        }
    } else if groups.len() > 0 {
        assert(groups[0].1.gid == gid);
    }
}

/// What was seen of an entry is what the first fact about its path and account says, and
/// nothing is known where there is no such fact.
pub proof fn the_first_fact_speaks(
    facts: Seq<FileAclFact>,
    path: Seq<char>,
    account: Seq<char>,
)
    ensures
        match acl_fact(facts, path, account) {
            None => forall|i: int|
                0 <= i < facts.len() ==> (#[trigger] facts[i]).path@ != path || facts[i].account@
                    != account,
            Some(present) => exists|i: int|
                {
                    &&& 0 <= i < facts.len()
                    &&& (#[trigger] facts[i]).path@ == path
                    &&& facts[i].account@ == account
                    &&& facts[i].present == present
                    &&& forall|j: int|
                        0 <= j < i ==> (#[trigger] facts[j]).path@ != path || facts[j].account@
                            != account
                },
        },
    decreases facts.len(),
{
    if facts.len() > 0 {
        if facts[0].path@ == path && facts[0].account@ == account {
            assert(facts[0].path@ == path);
        } else {
            let rest = facts.skip(1);
            the_first_fact_speaks(rest, path, account);
            match acl_fact(rest, path, account) {
                None => {
                    assert forall|i: int| 0 <= i < facts.len() implies (#[trigger] facts[i]).path@
                        != path || facts[i].account@ != account by {
                        if i > 0 {
                            assert(rest[i - 1] == facts[i]);
                        }
                    }
                },
                Some(present) => {
                    let i = choose|i: int|
                        {
                            &&& 0 <= i < rest.len()
                            &&& (#[trigger] rest[i]).path@ == path
                            &&& rest[i].account@ == account
                            &&& rest[i].present == present
                            &&& forall|j: int|
                                0 <= j < i ==> (#[trigger] rest[j]).path@ != path
                                    || rest[j].account@ != account
                        };
                    assert(facts[i + 1] == rest[i]);
                    assert forall|j: int| 0 <= j < i + 1 implies (#[trigger] facts[j]).path@ != path
                        || facts[j].account@ != account by {
                        if j > 0 {
                            assert(rest[j - 1] == facts[j]);
                        }
                    }
                },
            }
        }
    }
}

/// The members of a group are those of its list, in order; a group without a list has none.
pub proof fn members_are_those_listed(h: HostFacts, group: Seq<char>)
    ensures
        match h.group_members.lookup(group) {
            Some(v) => h.members(group).len() == v@.len() && forall|i: int|
                0 <= i < v@.len() ==> h.members(group)[i] == (#[trigger] v@[i])@,
            None => h.members(group).len() == 0,
        },
{
}

} // verus!
