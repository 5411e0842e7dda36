//! The declaration: role accounts, groups and bindings, and their validation.
//!
//! A declaration references a role store for role composition and adds the account layer
//! (uid, shell, home). Reading the text is left to the caller, which hands the outcome to
//! [`Declaration::parse`].

use vstd::prelude::*;

use crate::catalog;
use crate::inspect;
use crate::names;
use crate::names::NameMap;
use crate::text;

verus! {

broadcast use vstd::string::group_string_axioms;

/// Defaults applied to role accounts that omit a field.
#[derive(Debug, Clone, PartialEq, Eq)]
pub struct Defaults {
    /// Inclusive `[min, max]` UID band for role accounts.
    pub uid_range: [u32; 2],
    /// Login shell when a role account omits its own.
    pub shell: String,
    /// Base directory for role-account homes.
    pub home_base: String,
}

/// A declared group, with an optional GID pin.
#[derive(Debug, Clone, PartialEq, Eq)]
pub struct GroupSpec {
    /// POSIX group name.
    pub name: String,
    /// Optional pinned GID.
    pub gid: Option<u32>,
    /// Whether the group is an existing OS group taken under management. A pinned `gid`
    /// is incompatible with adoption.
    pub adopt: bool,
    /// Members managed on this group. For an adopted group these must be managed users.
    pub members: Vec<String>,
}

/// The contents of a [`GroupSpec`].
#[verifier::ext_equal]
pub struct GroupSpecView {
    /// The group name.
    pub name: Seq<char>,
    /// The pinned GID.
    pub gid: Option<u32>,
    /// Whether the group is adopted.
    pub adopt: bool,
    /// The members.
    pub members: Seq<Seq<char>>,
}

impl View for GroupSpec {
    type V = GroupSpecView;

    open spec fn view(&self) -> GroupSpecView {
        GroupSpecView {
            name: self.name@,
            gid: self.gid,
            adopt: self.adopt,
            members: text::views(self.members@),
        }
    }
}

/// One role account: the projection of a role into a Unix account.
#[derive(Debug, Clone, PartialEq, Eq)]
pub struct RoleAccount {
    /// Role id.
    pub role: String,
    /// The UID of a created account. Absent for an adopted one.
    pub uid: Option<u32>,
    /// The existing OS user of an adopted account. Requires `adopt`.
    pub user: Option<String>,
    /// Whether the account is adopted. Requires `user` and forbids `uid`.
    pub adopt: bool,
    /// Login shell; falls back to the default.
    pub shell: Option<String>,
    /// Home directory; falls back to `<home_base>/<role>`.
    pub home: Option<String>,
}

/// The contents of a [`RoleAccount`].
#[verifier::ext_equal]
pub struct RoleAccountView {
    /// The role id.
    pub role: Seq<char>,
    /// The UID.
    pub uid: Option<u32>,
    /// The adopted user.
    pub user: Option<Seq<char>>,
    /// Whether the account is adopted.
    pub adopt: bool,
    /// The login shell.
    pub shell: Option<Seq<char>>,
    /// The home directory.
    pub home: Option<Seq<char>>,
}

impl View for RoleAccount {
    type V = RoleAccountView;

    open spec fn view(&self) -> RoleAccountView {
        RoleAccountView {
            role: self.role@,
            uid: self.uid,
            user: inspect::opt_text(self.user),
            adopt: self.adopt,
            shell: inspect::opt_text(self.shell),
            home: inspect::opt_text(self.home),
        }
    }
}

impl RoleAccount {
    /// Whether this account is adopted (bound to an existing user) rather than created.
    /// Told by the identity source, not by the `adopt` flag.
    pub fn is_adopted(&self) -> (r: bool)
        ensures
            r == self@.user is Some,
    {
        self.user.is_some()
    }
}

/// A grant binding: a role's permissions attached to a declared group.
#[derive(Debug, Clone, PartialEq, Eq)]
pub struct RoleGroup {
    /// Role id whose grants are bound to the group.
    pub role: String,
    /// Target group name.
    pub group: String,
}

/// The contents of a [`RoleGroup`].
#[verifier::ext_equal]
pub struct RoleGroupView {
    /// The role id.
    pub role: Seq<char>,
    /// The group name.
    pub group: Seq<char>,
}

impl View for RoleGroup {
    type V = RoleGroupView;

    open spec fn view(&self) -> RoleGroupView {
        RoleGroupView { role: self.role@, group: self.group@ }
    }
}

/// A declaration.
#[derive(Debug, Clone, PartialEq, Eq)]
pub struct Declaration {
    /// Monotonic version.
    pub version: u32,
    /// Path to the role-store directory.
    pub role_store: String,
    /// Defaults block.
    pub defaults: Defaults,
    /// Role accounts.
    pub role_accounts: Vec<RoleAccount>,
    /// Declared groups.
    pub groups: Vec<GroupSpec>,
    /// Grant bindings of roles to groups.
    pub role_groups: Vec<RoleGroup>,
    /// Detached signature over the raw bytes, where there is one.
    pub signature: Option<String>,
}

/// What the validation of a declaration reads.
#[verifier::ext_equal]
pub struct DeclarationView {
    /// The version.
    pub version: u32,
    /// The path of the role-store.
    pub role_store: Seq<char>,
    /// The least UID of the band.
    pub min: u32,
    /// The greatest UID of the band.
    pub max: u32,
    /// The default login shell.
    pub shell: Seq<char>,
    /// The base directory of homes.
    pub home_base: Seq<char>,
    /// The role accounts.
    pub accounts: Seq<RoleAccountView>,
    /// The groups.
    pub groups: Seq<GroupSpecView>,
    /// The bindings.
    pub bindings: Seq<RoleGroupView>,
    /// The detached signature.
    pub signature: Option<Seq<char>>,
}

/// The contents of a list of accounts.
pub open spec fn account_views(v: Seq<RoleAccount>) -> Seq<RoleAccountView> {
    v.map_values(|a: RoleAccount| a@)
}

/// The contents of a list of groups.
pub open spec fn group_views(v: Seq<GroupSpec>) -> Seq<GroupSpecView> {
    v.map_values(|g: GroupSpec| g@)
}

/// The contents of a list of bindings.
pub open spec fn binding_views(v: Seq<RoleGroup>) -> Seq<RoleGroupView> {
    v.map_values(|b: RoleGroup| b@)
}

impl View for Declaration {
    type V = DeclarationView;

    open spec fn view(&self) -> DeclarationView {
        DeclarationView {
            version: self.version,
            role_store: self.role_store@,
            min: self.defaults.uid_range[0],
            max: self.defaults.uid_range[1],
            shell: self.defaults.shell@,
            home_base: self.defaults.home_base@,
            accounts: account_views(self.role_accounts@),
            groups: group_views(self.groups@),
            bindings: binding_views(self.role_groups@),
            signature: inspect::opt_text(self.signature),
        }
    }
}

/// Errors from parsing or validating a declaration.
#[derive(Debug, PartialEq, Eq)]
pub enum DeclarationError {
    /// The text is not a declaration.
    TomlParse(String),
    /// `version` must be at least 1.
    VersionZero(u32),
    /// `uid_range` must be `[min, max]` with `min <= max`.
    UidRangeInverted(u32, u32),
    /// A role account UID falls outside the band.
    UidOutOfRange {
        /// The role.
        role: String,
        /// Its UID.
        uid: u32,
        /// The least UID of the band.
        min: u32,
        /// The greatest UID of the band.
        max: u32,
    },
    /// Two role accounts share a UID.
    UidCollision {
        /// The UID.
        uid: u32,
        /// The role that has it first.
        first: String,
        /// The role that has it again.
        second: String,
    },
    /// Two role accounts share a role id.
    DuplicateRole(String),
    /// A role id is not valid.
    RoleIdInvalid {
        /// The role id.
        value: String,
    },
    /// A declared group name is not valid.
    GroupNameInvalid {
        /// The group name.
        value: String,
    },
    /// Two groups share a name.
    DuplicateGroup(String),
    /// A name of the required group set is not valid.
    InvalidGroupName {
        /// The group name.
        value: String,
    },
    /// A role account declares both a UID and a user.
    AccountUidAndUser {
        /// The role.
        role: String,
    },
    /// Half of an adoption is missing.
    AccountAdoptInconsistent {
        /// The role.
        role: String,
    },
    /// A role account declares neither a UID nor a user.
    AccountNoIdentity {
        /// The role.
        role: String,
    },
    /// An adopted user name is not valid.
    UserNameInvalid {
        /// The user name.
        value: String,
    },
    /// An adopted group has a pinned GID.
    GroupAdoptWithGid {
        /// The group.
        group: String,
    },
    /// A member of a group is not a valid user name.
    GroupMemberNameInvalid {
        /// The group.
        group: String,
        /// The member.
        value: String,
    },
    /// A member of an adopted group is not a managed user.
    AdoptedGroupMemberUnmanaged {
        /// The group.
        group: String,
        /// The member.
        value: String,
    },
    /// A binding names a group that is not declared.
    RoleGroupUndeclaredGroup {
        /// The role.
        role: String,
        /// The group.
        group: String,
    },
    /// Two bindings are the same pair.
    DuplicateRoleGroup {
        /// The role.
        role: String,
        /// The group.
        group: String,
    },
}

/// The contents of a [`DeclarationError`].
pub enum FaultView {
    /// See [`DeclarationError::TomlParse`].
    TomlParse(Seq<char>),
    /// See [`DeclarationError::VersionZero`].
    VersionZero(u32),
    /// See [`DeclarationError::UidRangeInverted`].
    UidRangeInverted(u32, u32),
    /// See [`DeclarationError::UidOutOfRange`].
    UidOutOfRange { role: Seq<char>, uid: u32, min: u32, max: u32 },
    /// See [`DeclarationError::UidCollision`].
    UidCollision { uid: u32, first: Seq<char>, second: Seq<char> },
    /// See [`DeclarationError::DuplicateRole`].
    DuplicateRole(Seq<char>),
    /// See [`DeclarationError::RoleIdInvalid`].
    RoleIdInvalid { value: Seq<char> },
    /// See [`DeclarationError::GroupNameInvalid`].
    GroupNameInvalid { value: Seq<char> },
    /// See [`DeclarationError::DuplicateGroup`].
    DuplicateGroup(Seq<char>),
    /// See [`DeclarationError::InvalidGroupName`].
    InvalidGroupName { value: Seq<char> },
    /// See [`DeclarationError::AccountUidAndUser`].
    AccountUidAndUser { role: Seq<char> },
    /// See [`DeclarationError::AccountAdoptInconsistent`].
    AccountAdoptInconsistent { role: Seq<char> },
    /// See [`DeclarationError::AccountNoIdentity`].
    AccountNoIdentity { role: Seq<char> },
    /// See [`DeclarationError::UserNameInvalid`].
    UserNameInvalid { value: Seq<char> },
    /// See [`DeclarationError::GroupAdoptWithGid`].
    GroupAdoptWithGid { group: Seq<char> },
    /// See [`DeclarationError::GroupMemberNameInvalid`].
    GroupMemberNameInvalid { group: Seq<char>, value: Seq<char> },
    /// See [`DeclarationError::AdoptedGroupMemberUnmanaged`].
    AdoptedGroupMemberUnmanaged { group: Seq<char>, value: Seq<char> },
    /// See [`DeclarationError::RoleGroupUndeclaredGroup`].
    RoleGroupUndeclaredGroup { role: Seq<char>, group: Seq<char> },
    /// See [`DeclarationError::DuplicateRoleGroup`].
    DuplicateRoleGroup { role: Seq<char>, group: Seq<char> },
}

impl View for DeclarationError {
    type V = FaultView;

    open spec fn view(&self) -> FaultView {
        match self {
            DeclarationError::TomlParse(e) => FaultView::TomlParse(e@),
            DeclarationError::VersionZero(v) => FaultView::VersionZero(*v),
            DeclarationError::UidRangeInverted(a, b) => FaultView::UidRangeInverted(*a, *b),
            DeclarationError::UidOutOfRange { role, uid, min, max } => FaultView::UidOutOfRange {
                role: role@,
                uid: *uid,
                min: *min,
                max: *max,
            },
            DeclarationError::UidCollision { uid, first, second } => FaultView::UidCollision {
                uid: *uid,
                first: first@,
                second: second@,
            },
            DeclarationError::DuplicateRole(r) => FaultView::DuplicateRole(r@),
            DeclarationError::RoleIdInvalid { value } => FaultView::RoleIdInvalid { value: value@ },
            DeclarationError::GroupNameInvalid { value } => FaultView::GroupNameInvalid {
                value: value@,
            },
            DeclarationError::DuplicateGroup(g) => FaultView::DuplicateGroup(g@),
            DeclarationError::InvalidGroupName { value } => FaultView::InvalidGroupName {
                value: value@,
            },
            DeclarationError::AccountUidAndUser { role } => FaultView::AccountUidAndUser {
                role: role@,
            },
            DeclarationError::AccountAdoptInconsistent { role } => {
                FaultView::AccountAdoptInconsistent { role: role@ }
            },
            DeclarationError::AccountNoIdentity { role } => FaultView::AccountNoIdentity {
                role: role@,
            },
            DeclarationError::UserNameInvalid { value } => FaultView::UserNameInvalid {
                value: value@,
            },
            DeclarationError::GroupAdoptWithGid { group } => FaultView::GroupAdoptWithGid {
                group: group@,
            },
            DeclarationError::GroupMemberNameInvalid { group, value } => {
                FaultView::GroupMemberNameInvalid { group: group@, value: value@ }
            },
            DeclarationError::AdoptedGroupMemberUnmanaged { group, value } => {
                FaultView::AdoptedGroupMemberUnmanaged { group: group@, value: value@ }
            },
            DeclarationError::RoleGroupUndeclaredGroup { role, group } => {
                FaultView::RoleGroupUndeclaredGroup { role: role@, group: group@ }
            },
            DeclarationError::DuplicateRoleGroup { role, group } => {
                FaultView::DuplicateRoleGroup { role: role@, group: group@ }
            },
        }
    }
}

// ---------------------------------------------------------------------------
// Names
// ---------------------------------------------------------------------------

/// Whether a character may stand in a role id after the first.
pub open spec fn role_char(c: char) -> bool {
    ('a' <= c && c <= 'z') || ('0' <= c && c <= '9') || c == '-'
}

/// Whether a character may stand in a group or user name after the first.
pub open spec fn name_char(c: char) -> bool {
    role_char(c) || c == '_'
}

/// A role id: 1 to 16 characters, a lowercase letter first, then lowercase letters,
/// digits and hyphens.
pub open spec fn valid_role_id(id: Seq<char>) -> bool {
    &&& 1 <= id.len() <= 16
    &&& 'a' <= id[0] && id[0] <= 'z'
    &&& forall|i: int| 1 <= i < id.len() ==> role_char(#[trigger] id[i])
}

/// A group or user name: 1 to 32 characters, a lowercase letter or an underscore first,
/// then lowercase letters, digits, underscores and hyphens.
pub open spec fn valid_name(name: Seq<char>) -> bool {
    &&& 1 <= name.len() <= 32
    &&& ('a' <= name[0] && name[0] <= 'z') || name[0] == '_'
    &&& forall|i: int| 1 <= i < name.len() ==> name_char(#[trigger] name[i])
}

/// Whether a character may stand in a role id after the first.
fn is_role_char(c: char) -> (r: bool)
    ensures
        r == role_char(c),
{
    ('a' <= c && c <= 'z') || ('0' <= c && c <= '9') || c == '-'
}

/// Whether `id` is a valid role id.
pub fn is_valid_role_id(id: &str) -> (r: bool)
    ensures
        r == valid_role_id(id@),
{
    let cs = text::chars_of(id);
    let n = cs.len();
    if n == 0 || n > 16 {
        return false;
    }
    if !('a' <= cs[0] && cs[0] <= 'z') {
        return false;
    }
    let mut i: usize = 1;
    while i < n
        invariant
            cs@ == id@,
            n == cs@.len(),
            1 <= i <= n,
            forall|j: int| 1 <= j < i ==> role_char(#[trigger] id@[j]),
        decreases n - i,
    {
        if !is_role_char(cs[i]) {
            proof {
                assert(!role_char(id@[i as int]));
            }
            return false;
        }
        i += 1;
    }
    true
}

/// Whether `name` is a valid group name.
pub fn is_valid_group_name(name: &str) -> (r: bool)
    ensures
        r == valid_name(name@),
{
    let cs = text::chars_of(name);
    let n = cs.len();
    if n == 0 || n > 32 {
        return false;
    }
    if !(('a' <= cs[0] && cs[0] <= 'z') || cs[0] == '_') {
        return false;
    }
    let mut i: usize = 1;
    while i < n
        invariant
            cs@ == name@,
            n == cs@.len(),
            1 <= i <= n,
            forall|j: int| 1 <= j < i ==> name_char(#[trigger] name@[j]),
        decreases n - i,
    {
        if !is_role_char(cs[i]) && cs[i] != '_' {
            proof {
                assert(!name_char(name@[i as int]));
            }
            return false;
        }
        i += 1;
    }
    true
}

/// Whether `name` is a valid user name. The class is that of a group name.
pub fn is_valid_user_name(name: &str) -> (r: bool)
    ensures
        r == valid_name(name@),
{
    is_valid_group_name(name)
}

// ---------------------------------------------------------------------------
// Faults
// ---------------------------------------------------------------------------

/// Whether one of the first `n` accounts has this role.
pub open spec fn role_before(accounts: Seq<RoleAccountView>, n: int, role: Seq<char>) -> bool {
    exists|j: int| 0 <= j < n && (#[trigger] accounts[j]).role == role
}

/// The role of the first account, from `j` and before `n`, with this UID.
pub open spec fn uid_holder(accounts: Seq<RoleAccountView>, j: int, n: int, uid: u32) -> Option<
    Seq<char>,
>
    decreases n - j,
{
    if j >= n {
        None
    } else if accounts[j].uid == Some(uid) {
        Some(accounts[j].role)
    } else {
        uid_holder(accounts, j + 1, n, uid)
    }
}

/// What is wrong with the account at `i`, where nothing is wrong with those before it.
pub open spec fn account_fault(
    accounts: Seq<RoleAccountView>,
    i: int,
    min: u32,
    max: u32,
) -> Option<FaultView> {
    let a = accounts[i];
    let role = a.role;
    if !valid_role_id(role) {
        Some(FaultView::RoleIdInvalid { value: role })
    } else if role_before(accounts, i, role) {
        Some(FaultView::DuplicateRole(role))
    } else {
        match (a.uid, a.user) {
            (Some(_), Some(_)) => Some(FaultView::AccountUidAndUser { role }),
            (None, None) => Some(FaultView::AccountNoIdentity { role }),
            (Some(uid), None) => if a.adopt {
                Some(FaultView::AccountAdoptInconsistent { role })
            } else if uid < min || uid > max {
                Some(FaultView::UidOutOfRange { role, uid, min, max })
            } else {
                match uid_holder(accounts, 0, i, uid) {
                    Some(first) => Some(FaultView::UidCollision { uid, first, second: role }),
                    None => None,
                }
            },
            (None, Some(user)) => if !a.adopt {
                Some(FaultView::AccountAdoptInconsistent { role })
            } else if !valid_name(user) {
                Some(FaultView::UserNameInvalid { value: user })
            } else {
                None
            },
        }
    }
}

/// The first fault among the accounts from `i` on.
pub open spec fn accounts_fault(
    accounts: Seq<RoleAccountView>,
    i: int,
    min: u32,
    max: u32,
) -> Option<FaultView>
    decreases accounts.len() - i,
{
    if i >= accounts.len() {
        None
    } else {
        match account_fault(accounts, i, min, max) {
            Some(e) => Some(e),
            None => accounts_fault(accounts, i + 1, min, max),
        }
    }
}

/// The OS login that an account manages: the adopted user, or the role id of a created
/// account.
pub open spec fn login_of(a: RoleAccountView) -> Seq<char> {
    match a.user {
        Some(user) => user,
        None => a.role,
    }
}

/// Whether some account manages this OS login.
pub open spec fn manages(accounts: Seq<RoleAccountView>, login: Seq<char>) -> bool {
    exists|j: int| 0 <= j < accounts.len() && login_of(#[trigger] accounts[j]) == login
}

/// The first fault among the members of a group from `i` on.
pub open spec fn members_fault(
    g: GroupSpecView,
    i: int,
    accounts: Seq<RoleAccountView>,
) -> Option<FaultView>
    decreases g.members.len() - i,
{
    if i >= g.members.len() {
        None
    } else {
        let value = g.members[i];
        if !valid_name(value) {
            Some(FaultView::GroupMemberNameInvalid { group: g.name, value })
        } else if g.adopt && !manages(accounts, value) {
            Some(FaultView::AdoptedGroupMemberUnmanaged { group: g.name, value })
        } else {
            members_fault(g, i + 1, accounts)
        }
    }
}

/// Whether one of the first `n` groups has this name.
pub open spec fn group_before(groups: Seq<GroupSpecView>, n: int, name: Seq<char>) -> bool {
    exists|j: int| 0 <= j < n && (#[trigger] groups[j]).name == name
}

/// What is wrong with the group at `i`.
pub open spec fn group_fault(
    groups: Seq<GroupSpecView>,
    i: int,
    accounts: Seq<RoleAccountView>,
) -> Option<FaultView> {
    let g = groups[i];
    if !valid_name(g.name) {
        Some(FaultView::GroupNameInvalid { value: g.name })
    } else if group_before(groups, i, g.name) {
        Some(FaultView::DuplicateGroup(g.name))
    } else if g.adopt && g.gid is Some {
        Some(FaultView::GroupAdoptWithGid { group: g.name })
    } else {
        members_fault(g, 0, accounts)
    }
}

/// The first fault among the groups from `i` on.
pub open spec fn groups_fault(
    groups: Seq<GroupSpecView>,
    i: int,
    accounts: Seq<RoleAccountView>,
) -> Option<FaultView>
    decreases groups.len() - i,
{
    if i >= groups.len() {
        None
    } else {
        match group_fault(groups, i, accounts) {
            Some(e) => Some(e),
            None => groups_fault(groups, i + 1, accounts),
        }
    }
}

/// Whether one of the first `n` bindings is this one.
pub open spec fn binding_before(bindings: Seq<RoleGroupView>, n: int, b: RoleGroupView) -> bool {
    exists|j: int| 0 <= j < n && #[trigger] bindings[j] == b
}

/// What is wrong with the binding at `i`.
pub open spec fn binding_fault(
    bindings: Seq<RoleGroupView>,
    i: int,
    groups: Seq<GroupSpecView>,
) -> Option<FaultView> {
    let b = bindings[i];
    if !valid_role_id(b.role) {
        Some(FaultView::RoleIdInvalid { value: b.role })
    } else if !group_before(groups, groups.len() as int, b.group) {
        Some(FaultView::RoleGroupUndeclaredGroup { role: b.role, group: b.group })
    } else if binding_before(bindings, i, b) {
        Some(FaultView::DuplicateRoleGroup { role: b.role, group: b.group })
    } else {
        None
    }
}

/// The first fault among the bindings from `i` on.
pub open spec fn bindings_fault(
    bindings: Seq<RoleGroupView>,
    i: int,
    groups: Seq<GroupSpecView>,
) -> Option<FaultView>
    decreases bindings.len() - i,
{
    if i >= bindings.len() {
        None
    } else {
        match binding_fault(bindings, i, groups) {
            Some(e) => Some(e),
            None => bindings_fault(bindings, i + 1, groups),
        }
    }
}

/// What is wrong with a declaration, if anything: the version, the band, then the first
/// fault of the accounts, the groups and the bindings.
pub open spec fn fault(d: DeclarationView) -> Option<FaultView> {
    if d.version < 1 {
        Some(FaultView::VersionZero(d.version))
    } else if d.min > d.max {
        Some(FaultView::UidRangeInverted(d.min, d.max))
    } else {
        match accounts_fault(d.accounts, 0, d.min, d.max) {
            Some(e) => Some(e),
            None => match groups_fault(d.groups, 0, d.accounts) {
                Some(e) => Some(e),
                None => bindings_fault(d.bindings, 0, d.groups),
            },
        }
    }
}

/// The shell of an account.
pub open spec fn effective_shell(d: DeclarationView, a: RoleAccountView) -> Seq<char> {
    match a.shell {
        Some(s) => s,
        None => d.shell,
    }
}

/// The home of an account.
pub open spec fn effective_home(d: DeclarationView, a: RoleAccountView) -> Seq<char> {
    match a.home {
        Some(h) => h,
        None => catalog::join_path(d.home_base, a.role),
    }
}

// ---------------------------------------------------------------------------
// Validation
// ---------------------------------------------------------------------------

/// Whether one of the first `n` accounts has this role.
fn has_role_before(accounts: &[RoleAccount], n: usize, role: &str) -> (r: bool)
    requires
        n <= accounts@.len(),
    ensures
        r == role_before(account_views(accounts@), n as int, role@),
{
    let ghost all = account_views(accounts@);
    let mut j: usize = 0;
    while j < n
        invariant
            n <= accounts@.len(),
            all == account_views(accounts@),
            j <= n,
            forall|k: int| 0 <= k < j ==> (#[trigger] all[k]).role != role@,
        decreases n - j,
    {
        if text::same(&accounts[j].role, role) {
            proof {
                assert(all[j as int].role == role@);
            }
            return true;
        }
        j += 1;
    }
    false
}

/// The role of the first of the first `n` accounts with this UID.
fn find_uid<'a>(accounts: &'a [RoleAccount], n: usize, uid: u32) -> (r: Option<&'a String>)
    requires
        n <= accounts@.len(),
    ensures
        match r {
            Some(role) => uid_holder(account_views(accounts@), 0, n as int, uid) == Some(role@),
            None => uid_holder(account_views(accounts@), 0, n as int, uid) is None,
        },
{
    let ghost all = account_views(accounts@);
    let mut j: usize = 0;
    while j < n
        invariant
            n <= accounts@.len(),
            all == account_views(accounts@),
            j <= n,
            uid_holder(all, 0, n as int, uid) == uid_holder(all, j as int, n as int, uid),
        decreases n - j,
    {
        proof {
            assert(all[j as int] == accounts@[j as int]@);
        }
        match accounts[j].uid {
            Some(u) => {
                if u == uid {
                    return Some(&accounts[j].role);
                }
            },
            None => {},
        }
        j += 1;
    }
    None
}

/// Check the account at `i`.
fn check_account(accounts: &[RoleAccount], i: usize, min: u32, max: u32) -> (r: Result<
    (),
    DeclarationError,
>)
    requires
        i < accounts@.len(),
    ensures
        match account_fault(account_views(accounts@), i as int, min, max) {
            Some(e) => r is Err && r->Err_0@ == e,
            None => r is Ok,
        },
{
    let acct = &accounts[i];
    proof {
        assert(account_views(accounts@)[i as int] == acct@);
    }
    if !is_valid_role_id(&acct.role) {
        return Err(DeclarationError::RoleIdInvalid { value: acct.role.clone() });
    }
    if has_role_before(accounts, i, &acct.role) {
        return Err(DeclarationError::DuplicateRole(acct.role.clone()));
    }
    match (acct.uid, &acct.user) {
        (Some(_), Some(_)) => Err(
            DeclarationError::AccountUidAndUser { role: acct.role.clone() },
        ),
        (None, None) => Err(DeclarationError::AccountNoIdentity { role: acct.role.clone() }),
        (Some(uid), None) => {
            if acct.adopt {
                return Err(
                    DeclarationError::AccountAdoptInconsistent { role: acct.role.clone() },
                );
            }
            if uid < min || uid > max {
                return Err(
                    DeclarationError::UidOutOfRange { role: acct.role.clone(), uid, min, max },
                );
            }
            match find_uid(accounts, i, uid) {
                Some(first) => Err(
                    DeclarationError::UidCollision {
                        uid,
                        first: first.clone(),
                        second: acct.role.clone(),
                    },
                ),
                None => Ok(()),
            }
        },
        (None, Some(user)) => {
            if !acct.adopt {
                return Err(
                    DeclarationError::AccountAdoptInconsistent { role: acct.role.clone() },
                );
            }
            if !is_valid_user_name(user) {
                return Err(DeclarationError::UserNameInvalid { value: user.clone() });
            }
            Ok(())
        },
    }
}

/// Whether some account manages this OS login.
fn is_managed(accounts: &[RoleAccount], login: &str) -> (r: bool)
    ensures
        r == manages(account_views(accounts@), login@),
{
    let ghost all = account_views(accounts@);
    let mut j: usize = 0;
    while j < accounts.len()
        invariant
            all == account_views(accounts@),
            j <= accounts@.len(),
            forall|k: int| 0 <= k < j ==> login_of(#[trigger] all[k]) != login@,
        decreases accounts@.len() - j,
    {
        let acct = &accounts[j];
        proof {
            assert(all[j as int] == acct@);
        }
        let name = match &acct.user {
            Some(user) => user,
            None => &acct.role,
        };
        if text::same(name, login) {
            proof {
                assert(login_of(all[j as int]) == login@);
            }
            return true;
        }
        j += 1;
    }
    false
}

/// Whether one of the first `n` groups has this name.
fn has_group_before(groups: &[GroupSpec], n: usize, name: &str) -> (r: bool)
    requires
        n <= groups@.len(),
    ensures
        r == group_before(group_views(groups@), n as int, name@),
{
    let ghost all = group_views(groups@);
    let mut j: usize = 0;
    while j < n
        invariant
            n <= groups@.len(),
            all == group_views(groups@),
            j <= n,
            forall|k: int| 0 <= k < j ==> (#[trigger] all[k]).name != name@,
        decreases n - j,
    {
        if text::same(&groups[j].name, name) {
            proof {
                assert(all[j as int].name == name@);
            }
            return true;
        }
        j += 1;
    }
    false
}

/// Check the group at `i`.
fn check_group(groups: &[GroupSpec], i: usize, accounts: &[RoleAccount]) -> (r: Result<
    (),
    DeclarationError,
>)
    requires
        i < groups@.len(),
    ensures
        match group_fault(group_views(groups@), i as int, account_views(accounts@)) {
            Some(e) => r is Err && r->Err_0@ == e,
            None => r is Ok,
        },
{
    let g = &groups[i];
    let ghost managed = account_views(accounts@);
    proof {
        assert(group_views(groups@)[i as int] == g@);
    }
    if !is_valid_group_name(&g.name) {
        return Err(DeclarationError::GroupNameInvalid { value: g.name.clone() });
    }
    if has_group_before(groups, i, &g.name) {
        return Err(DeclarationError::DuplicateGroup(g.name.clone()));
    }
    if g.adopt && g.gid.is_some() {
        return Err(DeclarationError::GroupAdoptWithGid { group: g.name.clone() });
    }
    let mut k: usize = 0;
    while k < g.members.len()
        invariant
            managed == account_views(accounts@),
            k <= g.members@.len(),
            members_fault(g@, 0, managed) == members_fault(g@, k as int, managed),
            group_fault(group_views(groups@), i as int, managed) == members_fault(g@, 0, managed),
        decreases g.members@.len() - k,
    {
        let member = &g.members[k];
        proof {
            assert(g@.members[k as int] == member@);
        }
        if !is_valid_user_name(member) {
            return Err(
                DeclarationError::GroupMemberNameInvalid {
                    group: g.name.clone(),
                    value: member.clone(),
                },
            );
        }
        if g.adopt && !is_managed(accounts, member) {
            return Err(
                DeclarationError::AdoptedGroupMemberUnmanaged {
                    group: g.name.clone(),
                    value: member.clone(),
                },
            );
        }
        k += 1;
    }
    Ok(())
}

/// Check the binding at `i`.
fn check_binding(bindings: &[RoleGroup], i: usize, groups: &[GroupSpec]) -> (r: Result<
    (),
    DeclarationError,
>)
    requires
        i < bindings@.len(),
    ensures
        match binding_fault(binding_views(bindings@), i as int, group_views(groups@)) {
            Some(e) => r is Err && r->Err_0@ == e,
            None => r is Ok,
        },
{
    let b = &bindings[i];
    let ghost all = binding_views(bindings@);
    proof {
        assert(all[i as int] == b@);
    }
    if !is_valid_role_id(&b.role) {
        return Err(DeclarationError::RoleIdInvalid { value: b.role.clone() });
    }
    if !has_group_before(groups, groups.len(), &b.group) {
        return Err(
            DeclarationError::RoleGroupUndeclaredGroup {
                role: b.role.clone(),
                group: b.group.clone(),
            },
        );
    }
    let mut j: usize = 0;
    while j < i
        invariant
            i < bindings@.len(),
            all == binding_views(bindings@),
            all[i as int] == b@,
            valid_role_id(b@.role),
            group_before(group_views(groups@), groups@.len() as int, b@.group),
            j <= i,
            forall|k: int| 0 <= k < j ==> #[trigger] all[k] != b@,
        decreases i - j,
    {
        let other = &bindings[j];
        proof {
            assert(all[j as int] == other@);
        }
        if text::same(&other.role, &b.role) && text::same(&other.group, &b.group) {
            proof {
                assert(all[j as int] == b@);
            }
            return Err(
                DeclarationError::DuplicateRoleGroup {
                    role: b.role.clone(),
                    group: b.group.clone(),
                },
            );
        }
        j += 1;
    }
    Ok(())
}

impl Declaration {
    /// Take the outcome of reading the text, and validate what was read.
    pub fn parse(read: Result<Declaration, String>) -> (r: Result<Self, DeclarationError>)
        ensures
            match read {
                Err(e) => r is Err && r->Err_0@ == FaultView::TomlParse(e@),
                Ok(d) => match fault(d@) {
                    Some(e) => r is Err && r->Err_0@ == e,
                    None => r == Ok::<Declaration, DeclarationError>(d),
                },
            },
    {
        match read {
            Err(e) => Err(DeclarationError::TomlParse(e)),
            Ok(d) => match d.validate() {
                Ok(()) => Ok(d),
                Err(e) => Err(e),
            },
        }
    }

    /// Validate the declaration.
    pub fn validate(&self) -> (r: Result<(), DeclarationError>)
        ensures
            match fault(self@) {
                Some(e) => r is Err && r->Err_0@ == e,
                None => r is Ok,
            },
    {
        if self.version < 1 {
            return Err(DeclarationError::VersionZero(self.version));
        }
        let min = self.defaults.uid_range[0];
        let max = self.defaults.uid_range[1];
        if min > max {
            return Err(DeclarationError::UidRangeInverted(min, max));
        }
        let accounts = self.role_accounts.as_slice();
        let groups = self.groups.as_slice();
        let bindings = self.role_groups.as_slice();
        let ghost d = self@;
        let mut i: usize = 0;
        while i < accounts.len()
            invariant
                d == self@,
                d.version >= 1,
                d.min <= d.max,
                min == d.min,
                max == d.max,
                d.accounts == account_views(accounts@),
                i <= accounts@.len(),
                accounts_fault(d.accounts, 0, min, max) == accounts_fault(
                    d.accounts,
                    i as int,
                    min,
                    max,
                ),
            decreases accounts@.len() - i,
        {
            match check_account(accounts, i, min, max) {
                Ok(()) => {},
                Err(e) => {
                    return Err(e);
                },
            }
            i += 1;
        }
        let mut k: usize = 0;
        while k < groups.len()
            invariant
                d == self@,
                d.version >= 1,
                d.min <= d.max,
                d.accounts == account_views(accounts@),
                d.groups == group_views(groups@),
                accounts_fault(d.accounts, 0, d.min, d.max) is None,
                k <= groups@.len(),
                groups_fault(d.groups, 0, d.accounts) == groups_fault(
                    d.groups,
                    k as int,
                    d.accounts,
                ),
            decreases groups@.len() - k,
        {
            match check_group(groups, k, accounts) {
                Ok(()) => {},
                Err(e) => {
                    return Err(e);
                },
            }
            k += 1;
        }
        let mut m: usize = 0;
        while m < bindings.len()
            invariant
                d == self@,
                d.version >= 1,
                d.min <= d.max,
                d.groups == group_views(groups@),
                d.bindings == binding_views(bindings@),
                accounts_fault(d.accounts, 0, d.min, d.max) is None,
                groups_fault(d.groups, 0, d.accounts) is None,
                m <= bindings@.len(),
                bindings_fault(d.bindings, 0, d.groups) == bindings_fault(
                    d.bindings,
                    m as int,
                    d.groups,
                ),
            decreases bindings@.len() - m,
        {
            match check_binding(bindings, m, groups) {
                Ok(()) => {},
                Err(e) => {
                    return Err(e);
                },
            }
            m += 1;
        }
        Ok(())
    }

    /// Effective shell for an account: its own, else the default.
    pub fn shell_for<'a>(&'a self, acct: &'a RoleAccount) -> (r: &'a str)
        ensures
            r@ == match acct@.shell {
                Some(s) => s,
                None => self@.shell,
            },
            r@ == effective_shell(self@, acct@),
    {
        match &acct.shell {
            Some(s) => s.as_str(),
            None => self.defaults.shell.as_str(),
        }
    }

    /// Effective home for an account: its own, else `<home_base>/<role>`.
    pub fn home_for(&self, acct: &RoleAccount) -> (r: String)
        ensures
            r@ == match acct@.home {
                Some(h) => h,
                None => catalog::join_path(self@.home_base, acct@.role),
            },
            r@ == effective_home(self@, acct@),
    {
        match &acct.home {
            Some(h) => h.clone(),
            None => catalog::joined_path(&self.defaults.home_base, &acct.role),
        }
    }
}

// ---------------------------------------------------------------------------
// Messages
// ---------------------------------------------------------------------------

/// The rule for a group or user name, as messages state it.
pub const NAME_RULE: &'static str = "must be 1-32 chars, start with a lowercase letter or '_', and contain only a-z, 0-9, '_', or '-'";

impl FaultView {
    /// The message of the error.
    pub open spec fn text(self) -> Seq<char> {
        match self {
            FaultView::TomlParse(e) => "declaration TOML is invalid: "@ + e,
            FaultView::VersionZero(v) => "declaration version must be >= 1, got "@
                + text::decimal(v as nat),
            FaultView::UidRangeInverted(a, b) =>
                "uid_range must be [min, max] with min <= max, got ["@ + text::decimal(a as nat)
                + ", "@ + text::decimal(b as nat) + "]"@,
            FaultView::UidOutOfRange { role, uid, min, max } => "role "@ + text::debug_text(role)
                + " uid "@ + text::decimal(uid as nat) + " is outside uid_range ["@
                + text::decimal(min as nat) + ", "@ + text::decimal(max as nat) + "]"@,
            FaultView::UidCollision { uid, first, second } => "uid "@ + text::decimal(uid as nat)
                + " is used by both "@ + text::debug_text(first) + " and "@ + text::debug_text(
                second,
            ),
            FaultView::DuplicateRole(r) => "role "@ + text::debug_text(r)
                + " is declared more than once"@,
            FaultView::RoleIdInvalid { value } => "role "@ + text::debug_text(value)
                + " is not a valid role id: must be 1-16 chars, start with a-z, and contain only a-z, 0-9, or '-'"@,
            FaultView::GroupNameInvalid { value } => "group "@ + text::debug_text(value)
                + " is not a valid group name: "@ + NAME_RULE@,
            FaultView::DuplicateGroup(g) => "group "@ + text::debug_text(g)
                + " is declared more than once"@,
            FaultView::InvalidGroupName { value } => "required group "@ + text::debug_text(value)
                + " is not a valid group name: "@ + NAME_RULE@,
            FaultView::AccountUidAndUser { role } => "role "@ + text::debug_text(role)
                + " declares both uid and user (Created and Adopted are exclusive)"@,
            FaultView::AccountAdoptInconsistent { role } => "role "@ + text::debug_text(role)
                + " is an inconsistent adoption: adopt requires `user` set, `adopt = true`, and no `uid`"@,
            FaultView::AccountNoIdentity { role } => "role "@ + text::debug_text(role)
                + " has neither uid (Created) nor user (Adopted)"@,
            FaultView::UserNameInvalid { value } => "user "@ + text::debug_text(value)
                + " is not a valid user name: "@ + NAME_RULE@,
            FaultView::GroupAdoptWithGid { group } => "group "@ + text::debug_text(group)
                + " declares adopt together with a pinned gid (adoption never renumbers)"@,
            FaultView::GroupMemberNameInvalid { group, value } => "group "@ + text::debug_text(
                group,
            ) + " member "@ + text::debug_text(value) + " is not a valid user name: "@
                + NAME_RULE@,
            FaultView::AdoptedGroupMemberUnmanaged { group, value } => "adopted group "@
                + text::debug_text(group) + " member "@ + text::debug_text(value)
                + " is not a Census-managed role account (invariant A: cannot add a third-party user to a pre-existing group)"@,
            FaultView::RoleGroupUndeclaredGroup { role, group } => "role_group binds role "@
                + text::debug_text(role) + " to undeclared group "@ + text::debug_text(group),
            FaultView::DuplicateRoleGroup { role, group } => "role_group pair (role "@
                + text::debug_text(role) + ", group "@ + text::debug_text(group)
                + ") is declared more than once"@,
        }
    }
}

/// `before`, a quoted name, and `after`.
fn about(before: &str, name: &str, after: &str) -> (r: String)
    ensures
        r@ == before@ + text::debug_text(name@) + after@,
{
    text::join3(before, &text::debug_string(name), after)
}

/// `before`, a number, and `after`.
fn counting(before: &str, n: u32, after: &str) -> (r: String)
    ensures
        r@ == before@ + text::decimal(n as nat) + after@,
{
    text::join3(before, &text::decimal_string(n as u64), after)
}

impl DeclarationError {
    /// The message of the error.
    pub fn message(&self) -> (r: String)
        ensures
            r@ == self@.text(),
    {
        match self {
            DeclarationError::TomlParse(e) => text::join2("declaration TOML is invalid: ", e),
            DeclarationError::VersionZero(v) => text::join2(
                "declaration version must be >= 1, got ",
                &text::decimal_string(*v as u64),
            ),
            DeclarationError::UidRangeInverted(a, b) => {
                let mut m = counting(
                    "uid_range must be [min, max] with min <= max, got [",
                    *a,
                    ", ",
                );
                m.append(&text::decimal_string(*b as u64));
                m.append("]");
                m
            },
            DeclarationError::UidOutOfRange { role, uid, min, max } => {
                let mut m = about("role ", role, " uid ");
                m.append(&text::decimal_string(*uid as u64));
                m.append(" is outside uid_range [");
                m.append(&text::decimal_string(*min as u64));
                m.append(", ");
                m.append(&text::decimal_string(*max as u64));
                m.append("]");
                m
            },
            DeclarationError::UidCollision { uid, first, second } => {
                let mut m = counting("uid ", *uid, " is used by both ");
                m.append(&text::debug_string(first));
                m.append(" and ");
                m.append(&text::debug_string(second));
                m
            },
            DeclarationError::DuplicateRole(r) => about("role ", r, " is declared more than once"),
            DeclarationError::RoleIdInvalid { value } => about(
                "role ",
                value,
                " is not a valid role id: must be 1-16 chars, start with a-z, and contain only a-z, 0-9, or '-'",
            ),
            DeclarationError::GroupNameInvalid { value } => {
                let mut m = about("group ", value, " is not a valid group name: ");
                m.append(NAME_RULE);
                m
            },
            DeclarationError::DuplicateGroup(g) => about(
                "group ",
                g,
                " is declared more than once",
            ),
            DeclarationError::InvalidGroupName { value } => {
                let mut m = about("required group ", value, " is not a valid group name: ");
                m.append(NAME_RULE);
                m
            },
            DeclarationError::AccountUidAndUser { role } => about(
                "role ",
                role,
                " declares both uid and user (Created and Adopted are exclusive)",
            ),
            DeclarationError::AccountAdoptInconsistent { role } => about(
                "role ",
                role,
                " is an inconsistent adoption: adopt requires `user` set, `adopt = true`, and no `uid`",
            ),
            DeclarationError::AccountNoIdentity { role } => about(
                "role ",
                role,
                " has neither uid (Created) nor user (Adopted)",
            ),
            DeclarationError::UserNameInvalid { value } => {
                let mut m = about("user ", value, " is not a valid user name: ");
                m.append(NAME_RULE);
                m
            },
            DeclarationError::GroupAdoptWithGid { group } => about(
                "group ",
                group,
                " declares adopt together with a pinned gid (adoption never renumbers)",
            ),
            DeclarationError::GroupMemberNameInvalid { group, value } => {
                let mut m = about("group ", group, " member ");
                m.append(&text::debug_string(value));
                m.append(" is not a valid user name: ");
                m.append(NAME_RULE);
                m
            },
            DeclarationError::AdoptedGroupMemberUnmanaged { group, value } => {
                let mut m = about("adopted group ", group, " member ");
                m.append(&text::debug_string(value));
                m.append(
                    " is not a Census-managed role account (invariant A: cannot add a third-party user to a pre-existing group)",
                );
                m
            },
            DeclarationError::RoleGroupUndeclaredGroup { role, group } => {
                let mut m = about("role_group binds role ", role, " to undeclared group ");
                m.append(&text::debug_string(group));
                m
            },
            DeclarationError::DuplicateRoleGroup { role, group } => {
                let mut m = about("role_group pair (role ", role, ", group ");
                m.append(&text::debug_string(group));
                m.append(") is declared more than once");
                m
            },
        }
    }
}

// ---------------------------------------------------------------------------
// The required groups
// ---------------------------------------------------------------------------

/// A role account with its role's composition resolved.
#[derive(Debug, PartialEq, Eq)]
pub struct ResolvedAccount {
    /// The account name.
    pub name: String,
    /// The supplementary groups that the role asks for.
    pub groups: Vec<String>,
}

/// Whether some account asks for the group.
pub open spec fn asked_for(accounts: Seq<ResolvedAccount>, name: Seq<char>) -> bool
    decreases accounts.len(),
{
    accounts.len() > 0 && (asked_for(accounts.drop_last(), name) || text::listed(
        text::views(accounts.last().groups@),
        name,
    ))
}

/// The pin of the last declared group of this name, if one is declared.
pub open spec fn declared_pin(groups: Seq<GroupSpecView>, name: Seq<char>) -> Option<Option<u32>>
    decreases groups.len(),
{
    if groups.len() == 0 {
        None
    } else if groups.last().name == name {
        Some(groups.last().gid)
    } else {
        declared_pin(groups.drop_last(), name)
    }
}

/// The pin of a required group, if it is one: a declared group has the declared pin, and
/// a group that only a role asks for has none.
pub open spec fn required_pin(
    groups: Seq<GroupSpecView>,
    accounts: Seq<ResolvedAccount>,
    name: Seq<char>,
) -> Option<Option<u32>> {
    match declared_pin(groups, name) {
        Some(pin) => Some(pin),
        None => if asked_for(accounts, name) {
            Some(None)
        } else {
            None
        },
    }
}

/// Whether `e` is about the first required group, in order, whose name is not valid.
pub open spec fn first_invalid(
    groups: Seq<GroupSpecView>,
    accounts: Seq<ResolvedAccount>,
    e: FaultView,
) -> bool {
    &&& e is InvalidGroupName
    &&& required_pin(groups, accounts, e->InvalidGroupName_value) is Some
    &&& !valid_name(e->InvalidGroupName_value)
    &&& forall|n: Seq<char>|
        #![trigger required_pin(groups, accounts, n)]
        required_pin(groups, accounts, n) is Some && text::text_lt(n, e->InvalidGroupName_value)
            ==> valid_name(n)
}

/// Add the groups that an account asks for, without a pin.
fn ask_groups(out: &mut NameMap<Option<u32>>, groups: &[String])
    ensures
        forall|n: Seq<char>| #[trigger]
            final(out).lookup(n) == match old(out).lookup(n) {
                Some(pin) => Some(pin),
                None => if text::listed(text::views(groups@), n) {
                    Some(None)
                } else {
                    None
                },
            },
{
    let ghost all = text::views(groups@);
    let mut i: usize = 0;
    while i < groups.len()
        invariant
            all == text::views(groups@),
            i <= groups@.len(),
            forall|n: Seq<char>| #[trigger]
                out.lookup(n) == match old(out).lookup(n) {
                    Some(pin) => Some(pin),
                    None => if text::listed(all.take(i as int), n) {
                        Some(None)
                    } else {
                        None
                    },
                },
        decreases groups@.len() - i,
    {
        let g = &groups[i];
        proof {
            assert forall|n: Seq<char>| #[trigger]
                text::listed(all.take(i + 1), n) == (text::listed(all.take(i as int), n) || n
                    == g@) by {
                text::lemma_listed_step(all, i as int, n);
            }
        }
        if !out.contains_key(g) {
            out.insert(g.clone(), None);
        }
        i += 1;
    }
    proof {
        assert(all.take(i as int) =~= all);
    }
}

/// Compute the required groups: those that the resolved accounts ask for and those that
/// are declared, each with the declared pin, if any.
///
/// Every name is validated, also those that only a role asks for: the first one, in
/// order, that is not a valid group name is an error.
pub fn required_groups(decl: &Declaration, resolved: &[ResolvedAccount]) -> (r: Result<
    NameMap<Option<u32>>,
    DeclarationError,
>)
    ensures
        match r {
            Ok(out) => forall|n: Seq<char>| #[trigger]
                out.lookup(n) == required_pin(decl@.groups, resolved@, n) && (out.lookup(
                    n,
                ) is Some ==> valid_name(n)),
            Err(e) => first_invalid(decl@.groups, resolved@, e@),
        },
{
    let ghost groups = decl@.groups;
    let mut out: NameMap<Option<u32>> = NameMap::new();
    let mut i: usize = 0;
    while i < resolved.len()
        invariant
            i <= resolved@.len(),
            forall|n: Seq<char>| #[trigger]
                out.lookup(n) == if asked_for(resolved@.take(i as int), n) {
                    Some(None::<u32>)
                } else {
                    None
                },
        decreases resolved@.len() - i,
    {
        proof {
            assert(resolved@.take(i + 1).drop_last() =~= resolved@.take(i as int));
            assert(resolved@.take(i + 1).last() == resolved@[i as int]);
        }
        ask_groups(&mut out, resolved[i].groups.as_slice());
        i += 1;
    }
    proof {
        assert(resolved@.take(i as int) =~= resolved@);
    }
    let mut k: usize = 0;
    while k < decl.groups.len()
        invariant
            groups == group_views(decl.groups@),
            k <= decl.groups@.len(),
            forall|n: Seq<char>| #[trigger]
                out.lookup(n) == required_pin(groups.take(k as int), resolved@, n),
        decreases decl.groups@.len() - k,
    {
        let g = &decl.groups[k];
        proof {
            assert(groups.take(k + 1).drop_last() =~= groups.take(k as int));
            assert(groups.take(k + 1).last() == g@);
        }
        out.insert(g.name.clone(), g.gid);
        k += 1;
    }
    proof {
        assert(groups.take(k as int) =~= groups);
    }
    let n = out.len();
    let mut m: usize = 0;
    while m < n
        invariant
            n == out.seq().len(),
            names::ascending(out.keys()),
            m <= n,
            forall|q: Seq<char>| #[trigger]
                out.lookup(q) == required_pin(groups, resolved@, q),
            groups == decl@.groups,
            forall|j: int| 0 <= j < m ==> valid_name(#[trigger] out.keys()[j]),
        decreases n - m,
    {
        let name = out.key_at(m);
        if !is_valid_group_name(name) {
            proof {
                names::lemma_value_at(out.seq(), m as int);
                assert(out.lookup(name@) is Some);
                assert(required_pin(groups, resolved@, name@) is Some);
                assert forall|q: Seq<char>|
                    #![trigger required_pin(groups, resolved@, q)]
                    required_pin(groups, resolved@, q) is Some && text::text_lt(
                        q,
                        name@,
                    ) implies valid_name(q) by {
                    assert(out.lookup(q) is Some);
                    let j = names::lemma_place_of(out.seq(), q);
                    if j >= m {
                        if j == m {
                            names::lemma_lt_irreflexive(q);
                        } else {
                            names::lemma_lt_transitive(q, name@, out.keys()[j]);
                            names::lemma_lt_irreflexive(q);
                        }
                    }
                    assert(valid_name(out.keys()[j]));
                }
            }
            return Err(DeclarationError::InvalidGroupName { value: name.clone() });
        }
        m += 1;
    }
    proof {
        assert forall|q: Seq<char>| #[trigger] out.lookup(q) is Some implies valid_name(q) by {
            let j = names::lemma_place_of(out.seq(), q);
            assert(valid_name(out.keys()[j]));
        }
    }
    Ok(out)
}

// ---------------------------------------------------------------------------
// Laws
// ---------------------------------------------------------------------------

/// In a declaration without a fault, a role names exactly one account, no two created
/// accounts share a UID, every UID is in the band, and each account is either created or
/// adopted.
pub proof fn valid_accounts(d: DeclarationView)
    requires
        fault(d) is None,
    ensures
        forall|i: int, j: int|
            0 <= i < j < d.accounts.len() ==> (#[trigger] d.accounts[i]).role
                != (#[trigger] d.accounts[j]).role,
        forall|i: int, j: int|
            0 <= i < j < d.accounts.len() && (#[trigger] d.accounts[i]).uid is Some ==> d.accounts[
            i].uid != (#[trigger] d.accounts[j]).uid,
        forall|i: int|
            0 <= i < d.accounts.len() ==> {
                let a = #[trigger] d.accounts[i];
                &&& valid_role_id(a.role)
                &&& a.uid is Some <==> a.user is None
                &&& a.adopt <==> a.user is Some
                &&& a.uid matches Some(uid) ==> d.min <= uid <= d.max
            },
{
    assert forall|i: int| 0 <= i < d.accounts.len() implies #[trigger] account_fault(
        d.accounts,
        i,
        d.min,
        d.max,
    ) is None by {
        lemma_no_account_fault(d.accounts, 0, i, d.min, d.max);
    }
    assert forall|i: int| 0 <= i < d.accounts.len() implies {
        let a = #[trigger] d.accounts[i];
        &&& valid_role_id(a.role)
        &&& a.uid is Some <==> a.user is None
        &&& a.adopt <==> a.user is Some
        &&& a.uid matches Some(uid) ==> d.min <= uid <= d.max
    } by {
        assert(account_fault(d.accounts, i, d.min, d.max) is None);
    }
    assert forall|i: int, j: int| 0 <= i < j < d.accounts.len() implies (
    #[trigger] d.accounts[i]).role != (#[trigger] d.accounts[j]).role by {
        assert(account_fault(d.accounts, j, d.min, d.max) is None);
    }
    assert forall|i: int, j: int|
        0 <= i < j < d.accounts.len() && (#[trigger] d.accounts[i]).uid is Some implies d.accounts[
    i].uid != (#[trigger] d.accounts[j]).uid by {
        assert(account_fault(d.accounts, j, d.min, d.max) is None);
        if d.accounts[i].uid == d.accounts[j].uid {
            lemma_uid_holder(d.accounts, 0, j, i, d.accounts[j].uid->0);
        }
    }
}

/// Without a fault from `i` on there is none at `k`.
proof fn lemma_no_account_fault(
    accounts: Seq<RoleAccountView>,
    i: int,
    k: int,
    min: u32,
    max: u32,
)
    requires
        0 <= i <= k < accounts.len(),
        accounts_fault(accounts, i, min, max) is None,
    ensures
        account_fault(accounts, k, min, max) is None,
    decreases k - i,
{
    if i < k {
        lemma_no_account_fault(accounts, i + 1, k, min, max);
    }
}

/// A UID that some account before `n` has is found.
proof fn lemma_uid_holder(accounts: Seq<RoleAccountView>, j: int, n: int, k: int, uid: u32)
    requires
        0 <= j <= k < n <= accounts.len(),
        accounts[k].uid == Some(uid),
    ensures
        uid_holder(accounts, j, n, uid) is Some,
    decreases k - j,
{
    if j < k {
        lemma_uid_holder(accounts, j + 1, n, k, uid);
    }
}

/// In a declaration without a fault, no two groups share a name, no adopted group has a
/// pin, and nobody is put into an adopted group but the users that the declaration
/// manages.
pub proof fn valid_groups(d: DeclarationView)
    requires
        fault(d) is None,
    ensures
        forall|i: int, j: int|
            0 <= i < j < d.groups.len() ==> (#[trigger] d.groups[i]).name
                != (#[trigger] d.groups[j]).name,
        forall|i: int|
            0 <= i < d.groups.len() ==> valid_name((#[trigger] d.groups[i]).name) && (
            d.groups[i].adopt ==> d.groups[i].gid is None),
        forall|i: int, k: int|
            0 <= i < d.groups.len() && 0 <= k < d.groups[i].members.len() ==> {
                let member = #[trigger] d.groups[i].members[k];
                valid_name(member) && (d.groups[i].adopt ==> manages(d.accounts, member))
            },
{
    assert forall|i: int| 0 <= i < d.groups.len() implies #[trigger] group_fault(
        d.groups,
        i,
        d.accounts,
    ) is None by {
        lemma_no_group_fault(d.groups, 0, i, d.accounts);
    }
    assert forall|i: int, j: int| 0 <= i < j < d.groups.len() implies (
    #[trigger] d.groups[i]).name != (#[trigger] d.groups[j]).name by {
        assert(group_fault(d.groups, j, d.accounts) is None);
    }
    assert forall|i: int| 0 <= i < d.groups.len() implies valid_name(
        (#[trigger] d.groups[i]).name,
    ) && (d.groups[i].adopt ==> d.groups[i].gid is None) by {
        assert(group_fault(d.groups, i, d.accounts) is None);
    }
    assert forall|i: int, k: int|
        0 <= i < d.groups.len() && 0 <= k < d.groups[i].members.len() implies {
        let member = #[trigger] d.groups[i].members[k];
        valid_name(member) && (d.groups[i].adopt ==> manages(d.accounts, member))
    } by {
        assert(group_fault(d.groups, i, d.accounts) is None);
        lemma_no_member_fault(d.groups[i], 0, k, d.accounts);
    }
}

/// Without a fault from `i` on there is none at `k`.
proof fn lemma_no_group_fault(
    groups: Seq<GroupSpecView>,
    i: int,
    k: int,
    accounts: Seq<RoleAccountView>,
)
    requires
        0 <= i <= k < groups.len(),
        groups_fault(groups, i, accounts) is None,
    ensures
        group_fault(groups, k, accounts) is None,
    decreases k - i,
{
    if i < k {
        lemma_no_group_fault(groups, i + 1, k, accounts);
    }
}

/// Without a fault from `i` on there is none at `k`.
proof fn lemma_no_member_fault(
    g: GroupSpecView,
    i: int,
    k: int,
    accounts: Seq<RoleAccountView>,
)
    requires
        0 <= i <= k < g.members.len(),
        members_fault(g, i, accounts) is None,
    ensures
        valid_name(g.members[k]),
        g.adopt ==> manages(accounts, g.members[k]),
    decreases k - i,
{
    if i < k {
        lemma_no_member_fault(g, i + 1, k, accounts);
    }
}

/// In a declaration without a fault, every binding names a role id and a declared group,
/// and no two bindings are the same.
pub proof fn valid_bindings(d: DeclarationView)
    requires
        fault(d) is None,
    ensures
        forall|i: int|
            0 <= i < d.bindings.len() ==> valid_role_id((#[trigger] d.bindings[i]).role)
                && group_before(d.groups, d.groups.len() as int, d.bindings[i].group),
        forall|i: int, j: int|
            0 <= i < j < d.bindings.len() ==> #[trigger] d.bindings[i]
                != #[trigger] d.bindings[j],
{
    assert forall|i: int| 0 <= i < d.bindings.len() implies #[trigger] binding_fault(
        d.bindings,
        i,
        d.groups,
    ) is None by {
        lemma_no_binding_fault(d.bindings, 0, i, d.groups);
    }
    assert forall|i: int| 0 <= i < d.bindings.len() implies valid_role_id(
        (#[trigger] d.bindings[i]).role,
    ) && group_before(d.groups, d.groups.len() as int, d.bindings[i].group) by {
        assert(binding_fault(d.bindings, i, d.groups) is None);
    }
    assert forall|i: int, j: int| 0 <= i < j < d.bindings.len() implies #[trigger] d.bindings[i]
        != #[trigger] d.bindings[j] by {
        assert(binding_fault(d.bindings, j, d.groups) is None);
    }
}

/// Without a fault from `i` on there is none at `k`.
proof fn lemma_no_binding_fault(
    bindings: Seq<RoleGroupView>,
    i: int,
    k: int,
    groups: Seq<GroupSpecView>,
)
    requires
        0 <= i <= k < bindings.len(),
        bindings_fault(bindings, i, groups) is None,
    ensures
        binding_fault(bindings, k, groups) is None,
    decreases k - i,
{
    if i < k {
        lemma_no_binding_fault(bindings, i + 1, k, groups);
    }
}

/// The characters of names: a role id is 1 to 16 of `a`-`z`, `0`-`9` and `-`, a letter
/// first; a group or user name is 1 to 32 of those and `_`, a letter or `_` first.
pub proof fn names_by_character(s: Seq<char>)
    ensures
        valid_role_id(s) <==> {
            &&& 0 < s.len() < 17
            &&& 97 <= s[0] as int <= 122
            &&& forall|i: int|
                0 <= i < s.len() ==> {
                    let c = #[trigger] s[i] as int;
                    97 <= c <= 122 || 48 <= c <= 57 || c == 45
                }
        },
        valid_name(s) <==> {
            &&& 0 < s.len() < 33
            &&& 97 <= s[0] as int <= 122 || s[0] as int == 95
            &&& forall|i: int|
                0 <= i < s.len() ==> {
                    let c = #[trigger] s[i] as int;
                    97 <= c <= 122 || 48 <= c <= 57 || c == 45 || c == 95
                }
        },
{
    if valid_role_id(s) {
        assert forall|i: int| 0 <= i < s.len() implies {
            let c = #[trigger] s[i] as int;
            97 <= c <= 122 || 48 <= c <= 57 || c == 45
        } by {
            assert(i > 0 ==> role_char(s[i]));
        }
    }
    if valid_name(s) {
        assert forall|i: int| 0 <= i < s.len() implies {
            let c = #[trigger] s[i] as int;
            97 <= c <= 122 || 48 <= c <= 57 || c == 45 || c == 95
        } by {
            assert(i > 0 ==> name_char(s[i]));
        }
    }
}

/// Whether accounts are declared soundly: each has a role id of its own, and is either
/// created, with a UID of its own in the band, or adopted, with a valid user name.
pub open spec fn sound_accounts(accounts: Seq<RoleAccountView>, min: u32, max: u32) -> bool {
    &&& forall|i: int|
        0 <= i < accounts.len() ==> {
            let a = #[trigger] accounts[i];
            &&& valid_role_id(a.role)
            &&& a.uid is Some <==> a.user is None
            &&& a.adopt <==> a.user is Some
            &&& a.uid matches Some(uid) ==> min <= uid && uid <= max
            &&& a.user matches Some(user) ==> valid_name(user)
        }
    &&& forall|i: int, j: int|
        0 <= i < j < accounts.len() ==> {
            &&& (#[trigger] accounts[i]).role != (#[trigger] accounts[j]).role
            &&& accounts[i].uid is Some ==> accounts[i].uid != accounts[j].uid
        }
}

/// Whether groups are declared soundly: each has a valid name of its own and valid members,
/// and an adopted one has no pin and only members that are users of some account.
pub open spec fn sound_groups(groups: Seq<GroupSpecView>, accounts: Seq<RoleAccountView>) -> bool {
    &&& forall|i: int|
        0 <= i < groups.len() ==> {
            let g = #[trigger] groups[i];
            &&& valid_name(g.name)
            &&& g.adopt ==> g.gid is None
            &&& forall|k: int|
                0 <= k < g.members.len() ==> {
                    let member = #[trigger] g.members[k];
                    &&& valid_name(member)
                    &&& g.adopt ==> exists|a: int|
                        0 <= a < accounts.len() && ((#[trigger] accounts[a]).user == Some(member)
                            || (accounts[a].user is None && accounts[a].role == member))
                }
        }
    &&& forall|i: int, j: int|
        0 <= i < j < groups.len() ==> (#[trigger] groups[i]).name != (#[trigger] groups[j]).name
}

/// Whether bindings are declared soundly: each has a valid role id and a declared group, and
/// no two have the same role and the same group.
pub open spec fn sound_bindings(
    bindings: Seq<RoleGroupView>,
    groups: Seq<GroupSpecView>,
) -> bool {
    &&& forall|i: int|
        0 <= i < bindings.len() ==> {
            &&& valid_role_id((#[trigger] bindings[i]).role)
            &&& exists|g: int|
                0 <= g < groups.len() && (#[trigger] groups[g]).name == bindings[i].group
        }
    &&& forall|i: int, j: int|
        0 <= i < j < bindings.len() ==> (#[trigger] bindings[i]).role != (
        #[trigger] bindings[j]).role || bindings[i].group != bindings[j].group
}

/// A UID is found in the first account that has it, and only where one has it.
pub proof fn the_first_holder_of_a_uid(
    accounts: Seq<RoleAccountView>,
    j: int,
    n: int,
    uid: u32,
)
    requires
        0 <= j <= n <= accounts.len(),
    ensures
        match uid_holder(accounts, j, n, uid) {
            None => forall|k: int| j <= k < n ==> (#[trigger] accounts[k]).uid != Some(uid),
            Some(role) => exists|k: int|
                {
                    &&& j <= k < n
                    &&& (#[trigger] accounts[k]).uid == Some(uid)
                    &&& accounts[k].role == role
                    &&& forall|m: int| j <= m < k ==> (#[trigger] accounts[m]).uid != Some(uid)
                },
        },
    decreases n - j,
{
    if j < n && accounts[j].uid != Some(uid) {
        the_first_holder_of_a_uid(accounts, j + 1, n, uid);
        if uid_holder(accounts, j + 1, n, uid) is Some {
            let k = choose|k: int|
                {
                    &&& j + 1 <= k < n
                    &&& (#[trigger] accounts[k]).uid == Some(uid)
                    &&& accounts[k].role == uid_holder(accounts, j + 1, n, uid)->0
                    &&& forall|m: int| j + 1 <= m < k ==> (#[trigger] accounts[m]).uid != Some(uid)
                };
            assert forall|m: int| j <= m < k implies (#[trigger] accounts[m]).uid != Some(uid) by {}
        }
    } else if j < n {
        assert(accounts[j].uid == Some(uid));
    }
}

/// The faults of one account, each where and only where it holds, in this order: its role id
/// is not valid; an account before it has the role; it has both a UID and a user; it has
/// neither; a UID is adopted or a user is not; the UID is outside the band; an account before
/// it has the UID; the user name is not valid.
pub proof fn the_faults_of_an_account(
    accounts: Seq<RoleAccountView>,
    i: int,
    min: u32,
    max: u32,
)
    requires
        0 <= i < accounts.len(),
    ensures
        ({
            let a = accounts[i];
            let f = account_fault(accounts, i, min, max);
            let bad = !valid_role_id(a.role);
            let again = exists|j: int| 0 <= j < i && (#[trigger] accounts[j]).role == a.role;
            let both = a.uid is Some && a.user is Some;
            let neither = a.uid is None && a.user is None;
            let half = a.adopt != a.user is Some;
            let outside = a.uid is Some && !(min <= a.uid->0 && a.uid->0 <= max);
            let taken = a.uid is Some && exists|j: int|
                0 <= j < i && (#[trigger] accounts[j]).uid == a.uid;
            let named = a.user is Some && !valid_name(a.user->0);
            let r = a.role;
            &&& f == Some(FaultView::RoleIdInvalid { value: r }) <==> bad
            &&& f == Some(FaultView::DuplicateRole(r)) <==> !bad && again
            &&& f == Some(FaultView::AccountUidAndUser { role: r }) <==> !bad && !again && both
            &&& f == Some(FaultView::AccountNoIdentity { role: r }) <==> !bad && !again && neither
            &&& f == Some(FaultView::AccountAdoptInconsistent { role: r }) <==> !bad && !again
                && !both && !neither && half
            &&& f == Some(FaultView::UidOutOfRange { role: r, uid: a.uid->0, min, max }) <==> !bad
                && !again && !both && !neither && !half && outside
            &&& (f matches Some(FaultView::UidCollision { uid, first, second }) && Some(uid)
                == a.uid && second == r && exists|j: int|
                0 <= j < i && (#[trigger] accounts[j]).uid == a.uid && accounts[j].role == first)
                <==> !bad && !again && !both && !neither && !half && !outside && taken
            &&& f == Some(FaultView::UserNameInvalid { value: a.user->0 }) <==> !bad && !again
                && !both && !neither && !half && named
            &&& f is None <==> !bad && !again && !both && !neither && !half && !outside && !taken
                && !named
        }),
{
    let a = accounts[i];
    if let Some(uid) = a.uid {
        the_first_holder_of_a_uid(accounts, 0, i, uid);
    }
    assert(role_before(accounts, i, a.role) <==> exists|j: int|
        0 <= j < i && (#[trigger] accounts[j]).role == a.role);
}

/// The fault of the accounts is that of the first account that has one.
pub proof fn the_first_faulty_account(
    accounts: Seq<RoleAccountView>,
    i: int,
    min: u32,
    max: u32,
)
    requires
        0 <= i <= accounts.len(),
    ensures
        match accounts_fault(accounts, i, min, max) {
            None => forall|k: int|
                i <= k < accounts.len() ==> #[trigger] account_fault(accounts, k, min, max) is None,
            Some(e) => exists|k: int|
                {
                    &&& i <= k < accounts.len()
                    &&& #[trigger] account_fault(accounts, k, min, max) == Some(e)
                    &&& forall|j: int|
                        i <= j < k ==> #[trigger] account_fault(accounts, j, min, max) is None
                },
        },
    decreases accounts.len() - i,
{
    if i < accounts.len() {
        the_first_faulty_account(accounts, i + 1, min, max);
        assert(account_fault(accounts, i, min, max) is Some || account_fault(
            accounts,
            i,
            min,
            max,
        ) is None);
        if account_fault(accounts, i, min, max) is None && accounts_fault(
            accounts,
            i,
            min,
            max,
        ) is Some {
            let e = accounts_fault(accounts, i, min, max)->0;
            let k = choose|k: int|
                {
                    &&& i + 1 <= k < accounts.len()
                    &&& #[trigger] account_fault(accounts, k, min, max) == Some(e)
                    &&& forall|j: int|
                        i + 1 <= j < k ==> #[trigger] account_fault(accounts, j, min, max) is None
                };
            assert forall|j: int| i <= j < k implies #[trigger] account_fault(
                accounts,
                j,
                min,
                max,
            ) is None by {}
        }
    }
}

/// The fault of the members is that of the first member that has one: its name is not valid,
/// or the group is adopted and no account has that login.
pub proof fn the_first_faulty_member(g: GroupSpecView, i: int, accounts: Seq<RoleAccountView>)
    requires
        0 <= i <= g.members.len(),
    ensures
        ({
            let managed = |m: Seq<char>|
                exists|a: int|
                    0 <= a < accounts.len() && ((#[trigger] accounts[a]).user == Some(m) || (
                    accounts[a].user is None && accounts[a].role == m));
            match members_fault(g, i, accounts) {
                None => forall|k: int|
                    i <= k < g.members.len() ==> valid_name(#[trigger] g.members[k]) && (g.adopt
                        ==> managed(g.members[k])),
                Some(e) => exists|k: int|
                    {
                        &&& i <= k < g.members.len()
                        &&& forall|j: int|
                            i <= j < k ==> valid_name(#[trigger] g.members[j]) && (g.adopt
                                ==> managed(g.members[j]))
                        &&& (!valid_name(#[trigger] g.members[k]) && e
                            == (FaultView::GroupMemberNameInvalid {
                            group: g.name,
                            value: g.members[k],
                        })) || (valid_name(g.members[k]) && g.adopt && !managed(g.members[k]) && e
                            == (FaultView::AdoptedGroupMemberUnmanaged {
                            group: g.name,
                            value: g.members[k],
                        }))
                    },
            }
        }),
    decreases g.members.len() - i,
{
    let managed = |m: Seq<char>|
        exists|a: int|
            0 <= a < accounts.len() && ((#[trigger] accounts[a]).user == Some(m) || (
            accounts[a].user is None && accounts[a].role == m));
    if i < g.members.len() {
        the_first_faulty_member(g, i + 1, accounts);
        let m = g.members[i];
        assert(manages(accounts, m) <==> managed(m)) by {
            if manages(accounts, m) {
                let a = choose|a: int|
                    0 <= a < accounts.len() && login_of(#[trigger] accounts[a]) == m;
                assert(accounts[a].user == Some(m) || (accounts[a].user is None && accounts[a].role
                    == m));
            }
            if managed(m) {
                let a = choose|a: int|
                    0 <= a < accounts.len() && ((#[trigger] accounts[a]).user == Some(m) || (
                    accounts[a].user is None && accounts[a].role == m));
                assert(login_of(accounts[a]) == m);
            }
        }
        if valid_name(m) && (g.adopt ==> managed(m)) {
            if let Some(e) = members_fault(g, i + 1, accounts) {
                let k = choose|k: int|
                    {
                        &&& i + 1 <= k < g.members.len()
                        &&& forall|j: int|
                            i + 1 <= j < k ==> valid_name(#[trigger] g.members[j]) && (g.adopt
                                ==> managed(g.members[j]))
                        &&& (!valid_name(#[trigger] g.members[k]) && e
                            == (FaultView::GroupMemberNameInvalid {
                            group: g.name,
                            value: g.members[k],
                        })) || (valid_name(g.members[k]) && g.adopt && !managed(g.members[k]) && e
                            == (FaultView::AdoptedGroupMemberUnmanaged {
                            group: g.name,
                            value: g.members[k],
                        }))
                    };
                assert forall|j: int| i <= j < k implies valid_name(#[trigger] g.members[j]) && (
                g.adopt ==> managed(g.members[j])) by {}
                assert(i <= k < g.members.len());
            }
        } else {
            assert(g.members[i] == m);
        }
    }
}

/// The faults of one group, each where and only where it holds, in this order: its name is
/// not valid; a group before it has the name; it is adopted with a pin; a member is at fault.
pub proof fn the_faults_of_a_group(
    groups: Seq<GroupSpecView>,
    i: int,
    accounts: Seq<RoleAccountView>,
)
    requires
        0 <= i < groups.len(),
    ensures
        ({
            let g = groups[i];
            let f = group_fault(groups, i, accounts);
            let bad = !valid_name(g.name);
            let again = exists|j: int| 0 <= j < i && (#[trigger] groups[j]).name == g.name;
            let pinned = g.adopt && g.gid is Some;
            &&& f == Some(FaultView::GroupNameInvalid { value: g.name }) <==> bad
            &&& f == Some(FaultView::DuplicateGroup(g.name)) <==> !bad && again
            &&& f == Some(FaultView::GroupAdoptWithGid { group: g.name }) <==> !bad && !again
                && pinned
            &&& !bad && !again && !pinned ==> f == members_fault(g, 0, accounts)
        }),
{
    the_first_faulty_member(groups[i], 0, accounts);
}

/// The fault of the groups is that of the first group that has one.
pub proof fn the_first_faulty_group(
    groups: Seq<GroupSpecView>,
    i: int,
    accounts: Seq<RoleAccountView>,
)
    requires
        0 <= i <= groups.len(),
    ensures
        match groups_fault(groups, i, accounts) {
            None => forall|k: int|
                i <= k < groups.len() ==> #[trigger] group_fault(groups, k, accounts) is None,
            Some(e) => exists|k: int|
                {
                    &&& i <= k < groups.len()
                    &&& #[trigger] group_fault(groups, k, accounts) == Some(e)
                    &&& forall|j: int|
                        i <= j < k ==> #[trigger] group_fault(groups, j, accounts) is None
                },
        },
    decreases groups.len() - i,
{
    if i < groups.len() {
        the_first_faulty_group(groups, i + 1, accounts);
        if group_fault(groups, i, accounts) is None && groups_fault(groups, i, accounts) is Some {
            let e = groups_fault(groups, i, accounts)->0;
            let k = choose|k: int|
                {
                    &&& i + 1 <= k < groups.len()
                    &&& #[trigger] group_fault(groups, k, accounts) == Some(e)
                    &&& forall|j: int|
                        i + 1 <= j < k ==> #[trigger] group_fault(groups, j, accounts) is None
                };
            assert forall|j: int| i <= j < k implies #[trigger] group_fault(
                groups,
                j,
                accounts,
            ) is None by {}
        }
    }
}

/// The faults of one binding, each where and only where it holds, in this order: its role id
/// is not valid; no declared group has its name; a binding before it has the same role and
/// the same group. One role may be bound to several groups, and one group to several roles.
pub proof fn the_faults_of_a_binding(
    bindings: Seq<RoleGroupView>,
    i: int,
    groups: Seq<GroupSpecView>,
)
    requires
        0 <= i < bindings.len(),
    ensures
        ({
            let b = bindings[i];
            let f = binding_fault(bindings, i, groups);
            let bad = !valid_role_id(b.role);
            let declared = exists|g: int|
                0 <= g < groups.len() && (#[trigger] groups[g]).name == b.group;
            let again = exists|j: int|
                0 <= j < i && (#[trigger] bindings[j]).role == b.role && bindings[j].group
                    == b.group;
            &&& f == Some(FaultView::RoleIdInvalid { value: b.role }) <==> bad
            &&& f == Some(
                FaultView::RoleGroupUndeclaredGroup { role: b.role, group: b.group },
            ) <==> !bad && !declared
            &&& f == Some(FaultView::DuplicateRoleGroup { role: b.role, group: b.group }) <==> !bad
                && declared && again
            &&& f is None <==> !bad && declared && !again
        }),
{
    let b = bindings[i];
    if exists|j: int|
        0 <= j < i && (#[trigger] bindings[j]).role == b.role && bindings[j].group == b.group {
        let j = choose|j: int|
            0 <= j < i && (#[trigger] bindings[j]).role == b.role && bindings[j].group == b.group;
        assert(bindings[j] == b);
    }
}

/// The fault of the bindings is that of the first binding that has one.
pub proof fn the_first_faulty_binding(
    bindings: Seq<RoleGroupView>,
    i: int,
    groups: Seq<GroupSpecView>,
)
    requires
        0 <= i <= bindings.len(),
    ensures
        match bindings_fault(bindings, i, groups) {
            None => forall|k: int|
                i <= k < bindings.len() ==> #[trigger] binding_fault(bindings, k, groups) is None,
            Some(e) => exists|k: int|
                {
                    &&& i <= k < bindings.len()
                    &&& #[trigger] binding_fault(bindings, k, groups) == Some(e)
                    &&& forall|j: int|
                        i <= j < k ==> #[trigger] binding_fault(bindings, j, groups) is None
                },
        },
    decreases bindings.len() - i,
{
    if i < bindings.len() {
        the_first_faulty_binding(bindings, i + 1, groups);
        if binding_fault(bindings, i, groups) is None && bindings_fault(
            bindings,
            i,
            groups,
        ) is Some {
            let e = bindings_fault(bindings, i, groups)->0;
            let k = choose|k: int|
                {
                    &&& i + 1 <= k < bindings.len()
                    &&& #[trigger] binding_fault(bindings, k, groups) == Some(e)
                    &&& forall|j: int|
                        i + 1 <= j < k ==> #[trigger] binding_fault(bindings, j, groups) is None
                };
            assert forall|j: int| i <= j < k implies #[trigger] binding_fault(
                bindings,
                j,
                groups,
            ) is None by {}
        }
    }
}

/// Accounts are without a fault exactly where they are declared soundly.
proof fn lemma_sound_accounts(accounts: Seq<RoleAccountView>, min: u32, max: u32)
    ensures
        accounts_fault(accounts, 0, min, max) is None <==> sound_accounts(accounts, min, max),
{
    the_first_faulty_account(accounts, 0, min, max);
    assert forall|i: int| 0 <= i < accounts.len() implies {
        &&& #[trigger] account_fault(accounts, i, min, max) is None ==> {
            let a = accounts[i];
            &&& valid_role_id(a.role)
            &&& a.uid is Some <==> a.user is None
            &&& a.adopt <==> a.user is Some
            &&& a.uid matches Some(uid) ==> min <= uid && uid <= max
            &&& a.user matches Some(user) ==> valid_name(user)
            &&& forall|j: int|
                0 <= j < i ==> (#[trigger] accounts[j]).role != a.role && (a.uid is Some
                    ==> accounts[j].uid != a.uid)
        }
        &&& sound_accounts(accounts, min, max) ==> account_fault(accounts, i, min, max) is None
    } by {
        the_faults_of_an_account(accounts, i, min, max);
    }
    if accounts_fault(accounts, 0, min, max) is None {
        assert forall|i: int| 0 <= i < accounts.len() implies {
            let a = #[trigger] accounts[i];
            &&& valid_role_id(a.role)
            &&& a.uid is Some <==> a.user is None
            &&& a.adopt <==> a.user is Some
            &&& a.uid matches Some(uid) ==> min <= uid && uid <= max
            &&& a.user matches Some(user) ==> valid_name(user)
        } by {
            assert(account_fault(accounts, i, min, max) is None);
        }
        assert forall|i: int, j: int| 0 <= i < j < accounts.len() implies {
            &&& (#[trigger] accounts[i]).role != (#[trigger] accounts[j]).role
            &&& accounts[i].uid is Some ==> accounts[i].uid != accounts[j].uid
        } by {
            assert(account_fault(accounts, j, min, max) is None);
        }
    }
}

/// Groups are without a fault exactly where they are declared soundly.
proof fn lemma_sound_groups(groups: Seq<GroupSpecView>, accounts: Seq<RoleAccountView>)
    ensures
        groups_fault(groups, 0, accounts) is None <==> sound_groups(groups, accounts),
{
    the_first_faulty_group(groups, 0, accounts);
    assert forall|i: int| 0 <= i < groups.len() implies (#[trigger] group_fault(
        groups,
        i,
        accounts,
    ) is None <==> {
        let g = groups[i];
        &&& valid_name(g.name)
        &&& g.adopt ==> g.gid is None
        &&& forall|k: int|
            0 <= k < g.members.len() ==> {
                let member = #[trigger] g.members[k];
                &&& valid_name(member)
                &&& g.adopt ==> exists|a: int|
                    0 <= a < accounts.len() && ((#[trigger] accounts[a]).user == Some(member) || (
                    accounts[a].user is None && accounts[a].role == member))
            }
        &&& forall|j: int| 0 <= j < i ==> (#[trigger] groups[j]).name != g.name
    }) by {
        the_faults_of_a_group(groups, i, accounts);
        the_first_faulty_member(groups[i], 0, accounts);
    }
    if groups_fault(groups, 0, accounts) is None {
        assert forall|i: int| 0 <= i < groups.len() implies {
            let g = #[trigger] groups[i];
            &&& valid_name(g.name)
            &&& g.adopt ==> g.gid is None
            &&& forall|k: int|
                0 <= k < g.members.len() ==> {
                    let member = #[trigger] g.members[k];
                    &&& valid_name(member)
                    &&& g.adopt ==> exists|a: int|
                        0 <= a < accounts.len() && ((#[trigger] accounts[a]).user == Some(member)
                            || (accounts[a].user is None && accounts[a].role == member))
                }
        } by {
            assert(group_fault(groups, i, accounts) is None);
        }
        assert forall|i: int, j: int| 0 <= i < j < groups.len() implies (
        #[trigger] groups[i]).name != (#[trigger] groups[j]).name by {
            assert(group_fault(groups, j, accounts) is None);
        }
    }
    if sound_groups(groups, accounts) {
        assert forall|i: int| 0 <= i < groups.len() implies #[trigger] group_fault(
            groups,
            i,
            accounts,
        ) is None by {
            let g = groups[i];
            assert(valid_name(g.name));
        }
    }
}

/// Bindings are without a fault exactly where they are declared soundly.
proof fn lemma_sound_bindings(bindings: Seq<RoleGroupView>, groups: Seq<GroupSpecView>)
    ensures
        bindings_fault(bindings, 0, groups) is None <==> sound_bindings(bindings, groups),
{
    the_first_faulty_binding(bindings, 0, groups);
    assert forall|i: int| 0 <= i < bindings.len() implies (#[trigger] binding_fault(
        bindings,
        i,
        groups,
    ) is None <==> {
        let b = bindings[i];
        &&& valid_role_id(b.role)
        &&& exists|g: int| 0 <= g < groups.len() && (#[trigger] groups[g]).name == b.group
        &&& forall|j: int|
            0 <= j < i ==> (#[trigger] bindings[j]).role != b.role || bindings[j].group != b.group
    }) by {
        the_faults_of_a_binding(bindings, i, groups);
    }
    if bindings_fault(bindings, 0, groups) is None {
        assert forall|i: int| 0 <= i < bindings.len() implies {
            &&& valid_role_id((#[trigger] bindings[i]).role)
            &&& exists|g: int|
                0 <= g < groups.len() && (#[trigger] groups[g]).name == bindings[i].group
        } by {
            assert(binding_fault(bindings, i, groups) is None);
        }
        assert forall|i: int, j: int| 0 <= i < j < bindings.len() implies (
        #[trigger] bindings[i]).role != (#[trigger] bindings[j]).role || bindings[i].group
            != bindings[j].group by {
            assert(binding_fault(bindings, j, groups) is None);
        }
    }
    if sound_bindings(bindings, groups) {
        assert forall|i: int| 0 <= i < bindings.len() implies #[trigger] binding_fault(
            bindings,
            i,
            groups,
        ) is None by {
            assert(valid_role_id(bindings[i].role));
        }
    }
}

/// A declaration has no fault exactly where its version is at least 1, its band is ordered,
/// and its accounts, groups and bindings are declared soundly. So nothing but that is asked
/// of it: bindings that differ in role or in group are no duplicates.
pub proof fn sound_declarations_have_no_fault(d: DeclarationView)
    ensures
        fault(d) is None <==> {
            &&& d.version >= 1
            &&& d.min <= d.max
            &&& sound_accounts(d.accounts, d.min, d.max)
            &&& sound_groups(d.groups, d.accounts)
            &&& sound_bindings(d.bindings, d.groups)
        },
{
    lemma_sound_accounts(d.accounts, d.min, d.max);
    lemma_sound_groups(d.groups, d.accounts);
    lemma_sound_bindings(d.bindings, d.groups);
}

/// The faults are told in order: the version, the band, the accounts, the groups and the
/// bindings. Each is told only where what comes before it is sound.
pub proof fn faults_are_told_in_order(d: DeclarationView)
    ensures
        fault(d) == Some(FaultView::VersionZero(d.version)) <==> d.version == 0,
        fault(d) == Some(FaultView::UidRangeInverted(d.min, d.max)) <==> d.version > 0 && d.min
            > d.max,
        d.version > 0 && d.min <= d.max && !sound_accounts(d.accounts, d.min, d.max) ==> fault(d)
            == accounts_fault(d.accounts, 0, d.min, d.max),
        d.version > 0 && d.min <= d.max && sound_accounts(d.accounts, d.min, d.max)
            && !sound_groups(d.groups, d.accounts) ==> fault(d) == groups_fault(
            d.groups,
            0,
            d.accounts,
        ),
        d.version > 0 && d.min <= d.max && sound_accounts(d.accounts, d.min, d.max)
            && sound_groups(d.groups, d.accounts) ==> fault(d) == bindings_fault(
            d.bindings,
            0,
            d.groups,
        ),
{
    lemma_sound_accounts(d.accounts, d.min, d.max);
    lemma_sound_groups(d.groups, d.accounts);
    the_first_faulty_account(d.accounts, 0, d.min, d.max);
    the_first_faulty_group(d.groups, 0, d.accounts);
    the_first_faulty_binding(d.bindings, 0, d.groups);
    assert forall|i: int| 0 <= i < d.accounts.len() implies !(#[trigger] account_fault(
        d.accounts,
        i,
        d.min,
        d.max,
    ) matches Some(FaultView::VersionZero(_))) by {}
    assert forall|i: int| 0 <= i < d.groups.len() implies !(#[trigger] group_fault(
        d.groups,
        i,
        d.accounts,
    ) matches Some(FaultView::VersionZero(_))) && !(group_fault(
        d.groups,
        i,
        d.accounts,
    ) matches Some(FaultView::UidRangeInverted(_, _))) by {
        the_first_faulty_member(d.groups[i], 0, d.accounts);
    }
}

/// A duplicate binding is told only of a role and a group that two bindings share.
pub proof fn duplicate_bindings_are_duplicates(
    d: DeclarationView,
    role: Seq<char>,
    group: Seq<char>,
)
    requires
        fault(d) == Some(FaultView::DuplicateRoleGroup { role, group }),
    ensures
        exists|i: int, j: int|
            {
                &&& 0 <= i < j < d.bindings.len()
                &&& (#[trigger] d.bindings[i]).role == role
                &&& d.bindings[i].group == group
                &&& (#[trigger] d.bindings[j]).role == role
                &&& d.bindings[j].group == group
            },
{
    faults_are_told_in_order(d);
    the_first_faulty_account(d.accounts, 0, d.min, d.max);
    the_first_faulty_group(d.groups, 0, d.accounts);
    the_first_faulty_binding(d.bindings, 0, d.groups);
    assert forall|i: int| 0 <= i < d.groups.len() implies !(#[trigger] group_fault(
        d.groups,
        i,
        d.accounts,
    ) is Some && group_fault(d.groups, i, d.accounts)->0 is DuplicateRoleGroup) by {
        the_first_faulty_member(d.groups[i], 0, d.accounts);
    }
    let k = choose|k: int|
        0 <= k < d.bindings.len() && #[trigger] binding_fault(d.bindings, k, d.groups) == Some(
            FaultView::DuplicateRoleGroup { role, group },
        );
    let j = choose|j: int| 0 <= j < k && #[trigger] d.bindings[j] == d.bindings[k];
    assert(d.bindings[j].role == role && d.bindings[k].role == role);
}

/// A group is asked for where some account lists it.
proof fn lemma_asked_for(accounts: Seq<ResolvedAccount>, name: Seq<char>)
    ensures
        asked_for(accounts, name) <==> exists|i: int|
            0 <= i < accounts.len() && text::views((#[trigger] accounts[i]).groups@).contains(name),
    decreases accounts.len(),
{
    if accounts.len() > 0 {
        let before = accounts.drop_last();
        lemma_asked_for(before, name);
        text::listed_is_contained(text::views(accounts.last().groups@), name);
        if asked_for(before, name) {
            let i = choose|i: int|
                0 <= i < before.len() && text::views((#[trigger] before[i]).groups@).contains(name);
            assert(accounts[i] == before[i]);
        }
        if exists|i: int|
            0 <= i < accounts.len() && text::views((#[trigger] accounts[i]).groups@).contains(
                name,
            ) {
            let i = choose|i: int|
                0 <= i < accounts.len() && text::views((#[trigger] accounts[i]).groups@).contains(
                    name,
                );
            if i < before.len() {
                assert(before[i] == accounts[i]);
            }
        }
        assert(accounts[accounts.len() - 1] == accounts.last());
    }
}

/// The pin of a declared name is that of the last group that has it.
proof fn lemma_declared_pin(groups: Seq<GroupSpecView>, name: Seq<char>)
    ensures
        match declared_pin(groups, name) {
            None => forall|i: int| 0 <= i < groups.len() ==> (#[trigger] groups[i]).name != name,
            Some(pin) => exists|i: int|
                {
                    &&& 0 <= i < groups.len()
                    &&& (#[trigger] groups[i]).name == name
                    &&& groups[i].gid == pin
                    &&& forall|j: int| i < j < groups.len() ==> (#[trigger] groups[j]).name != name
                },
        },
    decreases groups.len(),
{
    if groups.len() > 0 {
        let before = groups.drop_last();
        if groups.last().name != name {
            lemma_declared_pin(before, name);
            match declared_pin(before, name) {
                None => {
                    assert forall|i: int| 0 <= i < groups.len() implies (#[trigger] groups[i]).name
                        != name by {
                        if i < before.len() {
                            assert(before[i] == groups[i]);
                        }
                    }
                },
                Some(pin) => {
                    let i = choose|i: int|
                        {
                            &&& 0 <= i < before.len()
                            &&& (#[trigger] before[i]).name == name
                            &&& before[i].gid == pin
                            &&& forall|j: int|
                                i < j < before.len() ==> (#[trigger] before[j]).name != name
                        };
                    assert(groups[i] == before[i]);
                    assert forall|j: int| i < j < groups.len() implies (#[trigger] groups[j]).name
                        != name by {
                        if j < before.len() {
                            assert(before[j] == groups[j]);
                        }
                    }
                },
            }
        } else {
            assert(groups[groups.len() - 1].name == name);
        }
    }
}

/// The required groups are those that are declared and those that an account asks for. A
/// declared one has the pin of the last group of that name, any other has none.
pub proof fn required_groups_are_declared_or_asked_for(
    groups: Seq<GroupSpecView>,
    accounts: Seq<ResolvedAccount>,
    name: Seq<char>,
)
    ensures
        required_pin(groups, accounts, name) is Some <==> (exists|i: int|
            0 <= i < groups.len() && (#[trigger] groups[i]).name == name) || (exists|i: int|
            0 <= i < accounts.len() && text::views((#[trigger] accounts[i]).groups@).contains(
                name,
            )),
        forall|i: int|
            0 <= i < groups.len() && (#[trigger] groups[i]).name == name && (forall|j: int|
                i < j < groups.len() ==> (#[trigger] groups[j]).name != name) ==> required_pin(
                groups,
                accounts,
                name,
            ) == Some(groups[i].gid),
        (forall|i: int| 0 <= i < groups.len() ==> (#[trigger] groups[i]).name != name)
            && required_pin(groups, accounts, name) is Some ==> required_pin(groups, accounts, name)
            == Some(None::<u32>),
{
    lemma_asked_for(accounts, name);
    lemma_declared_pin(groups, name);
    assert forall|i: int|
        0 <= i < groups.len() && (#[trigger] groups[i]).name == name && (forall|j: int|
            i < j < groups.len() ==> (#[trigger] groups[j]).name != name) implies required_pin(
        groups,
        accounts,
        name,
    ) == Some(groups[i].gid) by {
        let k = choose|k: int|
            {
                &&& 0 <= k < groups.len()
                &&& (#[trigger] groups[k]).name == name
                &&& groups[k].gid == declared_pin(groups, name)->0
                &&& forall|j: int| k < j < groups.len() ==> (#[trigger] groups[j]).name != name
            };
        assert(i == k);
    }
}

/// The messages of the faults: each names what is wrong and the value that is.
pub proof fn messages_of_faults(
    e: Seq<char>,
    role: Seq<char>,
    group: Seq<char>,
    value: Seq<char>,
    first: Seq<char>,
    second: Seq<char>,
    v: u32,
    a: u32,
    b: u32,
    uid: u32,
    min: u32,
    max: u32,
)
    ensures
        FaultView::TomlParse(e).text() == "declaration TOML is invalid: "@ + e,
        FaultView::VersionZero(v).text() == "declaration version must be >= 1, got "@
            + text::decimal(v as nat),
        FaultView::UidRangeInverted(a, b).text() == "uid_range must be [min, max] with min <= max, got ["@ + text::decimal(a as nat)
            + ", "@ + text::decimal(b as nat) + "]"@,
        (FaultView::UidOutOfRange { role, uid, min, max }).text() == "role "@ + text::debug_text(role)
            + " uid "@ + text::decimal(uid as nat) + " is outside uid_range ["@
            + text::decimal(min as nat) + ", "@ + text::decimal(max as nat) + "]"@,
        (FaultView::UidCollision { uid, first, second }).text() == "uid "@ + text::decimal(uid as nat)
            + " is used by both "@ + text::debug_text(first) + " and "@ + text::debug_text(
            second,
            ),
        FaultView::DuplicateRole(role).text() == "role "@ + text::debug_text(role)
            + " is declared more than once"@,
        (FaultView::RoleIdInvalid { value }).text() == "role "@ + text::debug_text(value)
            + " is not a valid role id: must be 1-16 chars, start with a-z, and contain only a-z, 0-9, or '-'"@,
        (FaultView::GroupNameInvalid { value }).text() == "group "@ + text::debug_text(value)
            + " is not a valid group name: "@ + "must be 1-32 chars, start with a lowercase letter or '_', and contain only a-z, 0-9, '_', or '-'"@,
        FaultView::DuplicateGroup(group).text() == "group "@ + text::debug_text(group)
            + " is declared more than once"@,
        (FaultView::InvalidGroupName { value }).text() == "required group "@ + text::debug_text(value)
            + " is not a valid group name: "@ + "must be 1-32 chars, start with a lowercase letter or '_', and contain only a-z, 0-9, '_', or '-'"@,
        (FaultView::AccountUidAndUser { role }).text() == "role "@ + text::debug_text(role)
            + " declares both uid and user (Created and Adopted are exclusive)"@,
        (FaultView::AccountAdoptInconsistent { role }).text() == "role "@ + text::debug_text(role)
            + " is an inconsistent adoption: adopt requires `user` set, `adopt = true`, and no `uid`"@,
        (FaultView::AccountNoIdentity { role }).text() == "role "@ + text::debug_text(role)
            + " has neither uid (Created) nor user (Adopted)"@,
        (FaultView::UserNameInvalid { value }).text() == "user "@ + text::debug_text(value)
            + " is not a valid user name: "@ + "must be 1-32 chars, start with a lowercase letter or '_', and contain only a-z, 0-9, '_', or '-'"@,
        (FaultView::GroupAdoptWithGid { group }).text() == "group "@ + text::debug_text(group)
            + " declares adopt together with a pinned gid (adoption never renumbers)"@,
        (FaultView::GroupMemberNameInvalid { group, value }).text() == "group "@ + text::debug_text(
            group,
            ) + " member "@ + text::debug_text(value) + " is not a valid user name: "@
            + "must be 1-32 chars, start with a lowercase letter or '_', and contain only a-z, 0-9, '_', or '-'"@,
        (FaultView::AdoptedGroupMemberUnmanaged { group, value }).text() == "adopted group "@
            + text::debug_text(group) + " member "@ + text::debug_text(value)
            + " is not a Census-managed role account (invariant A: cannot add a third-party user to a pre-existing group)"@,
        (FaultView::RoleGroupUndeclaredGroup { role, group }).text() == "role_group binds role "@
            + text::debug_text(role) + " to undeclared group "@ + text::debug_text(group),
        (FaultView::DuplicateRoleGroup { role, group }).text() == "role_group pair (role "@
            + text::debug_text(role) + ", group "@ + text::debug_text(group)
            + ") is declared more than once"@,
{
}

/// What is wrong with the required groups is the least name, in order, that is required and
/// not valid.
pub proof fn the_least_invalid_name_is_told(
    groups: Seq<GroupSpecView>,
    accounts: Seq<ResolvedAccount>,
    e: FaultView,
    name: Seq<char>,
)
    requires
        first_invalid(groups, accounts, e),
    ensures
        e matches FaultView::InvalidGroupName { value } && !valid_name(value) && required_pin(
            groups,
            accounts,
            value,
        ) is Some && (required_pin(groups, accounts, name) is Some && !valid_name(name) ==> name
            == value || text::text_lt(value, name)),
{
    let value = e->InvalidGroupName_value;
    names::lemma_lt_total(value, name);
    if required_pin(groups, accounts, name) is Some && text::text_lt(name, value) {
        assert(valid_name(name));
    }
}

/// What an account says of its shell and home goes before the defaults. Without it the shell
/// is the default one, and the home is the directory of its role under the base.
pub proof fn own_settings_go_before_defaults(d: DeclarationView, a: RoleAccountView)
    ensures
        a.shell matches Some(s) ==> effective_shell(d, a) == s,
        a.shell is None ==> effective_shell(d, a) == d.shell,
        a.home matches Some(h) ==> effective_home(d, a) == h,
        a.home is None ==> effective_home(d, a) == catalog::join_path(d.home_base, a.role),
{
}

} // verus!
