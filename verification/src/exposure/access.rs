//! Principal resolution and the POSIX (`acl(5)`) discretionary access check.
//!
//! `uid 0` short-circuits to full access. For an inode with only a trivial ACL the
//! mode bits decide: owner bits if the uid owns it, else the group bits if any of the
//! principal's groups owns it, else the `other` bits. For an inode with an extended
//! ACL the `acl(5)` precedence applies:
//!
//! 1. the owner's entry, not masked;
//! 2. else the entry of the named user, intersected with the mask;
//! 3. else, if the owning group or any named group is one of the principal's, the
//!    union of the matching entries after the mask; where none of them grants a bit,
//!    access is denied and does not fall through to `other`;
//! 4. else the `other` entry, not masked.
//!
//! Named entries are matched by the principal's name, never by a numeric id: the
//! qualifiers that `getfacl` prints are names.

use vstd::prelude::*;

use crate::exposure::acl;
use crate::exposure::acl::{AclEntries, AclPerms, AclTag};
use crate::exposure::index;
use crate::exposure::index::InodeRecord;
use crate::inspect;
use crate::inspect::{AccountFacts, HostFacts};
use crate::text;

verus! {

broadcast use vstd::string::group_string_axioms;

/// One group a principal belongs to: its name (for named-group ACL entries) and its
/// gid (for owning-group matching).
#[derive(Debug, Clone, PartialEq, Eq)]
pub struct ResolvedGroup {
    /// The group name.
    pub name: String,
    /// The numeric gid.
    pub gid: u32,
}

/// The contents of a [`ResolvedGroup`].
#[verifier::ext_equal]
pub struct GroupView {
    /// The group name.
    pub name: Seq<char>,
    /// The numeric gid.
    pub gid: u32,
}

impl View for ResolvedGroup {
    type V = GroupView;

    open spec fn view(&self) -> GroupView {
        GroupView { name: self.name@, gid: self.gid }
    }
}

/// The contents of a list of groups.
pub open spec fn group_views(v: Seq<ResolvedGroup>) -> Seq<GroupView> {
    v.map_values(|g: ResolvedGroup| g@)
}

/// The identity an exposure check is evaluated for.
#[derive(Debug, Clone, PartialEq, Eq)]
pub struct Principal {
    /// The login name (matches `user:<name>:` ACL entries).
    pub name: String,
    /// The numeric uid.
    pub uid: u32,
    /// Every group the principal belongs to (primary first, then supplementary).
    pub groups: Vec<ResolvedGroup>,
    /// The home directory, or `None` for an orphan uid with no account.
    pub home: Option<String>,
}

/// The contents of a [`Principal`].
#[verifier::ext_equal]
pub struct PrincipalView {
    /// The login name.
    pub name: Seq<char>,
    /// The numeric uid.
    pub uid: u32,
    /// The groups.
    pub groups: Seq<GroupView>,
    /// The home directory.
    pub home: Option<Seq<char>>,
}

impl View for Principal {
    type V = PrincipalView;

    open spec fn view(&self) -> PrincipalView {
        PrincipalView {
            name: self.name@,
            uid: self.uid,
            groups: group_views(self.groups@),
            home: inspect::opt_text(self.home),
        }
    }
}

/// The name of the first group with this gid.
pub open spec fn group_for_gid(groups: Seq<GroupView>, gid: u32) -> Option<Seq<char>>
    decreases groups.len(),
{
    if groups.len() == 0 {
        None
    } else if groups[0].gid == gid {
        Some(groups[0].name)
    } else {
        group_for_gid(groups.skip(1), gid)
    }
}

impl PrincipalView {
    /// Whether the principal belongs to a group of this name.
    pub open spec fn in_group(self, name: Seq<char>) -> bool {
        exists|i: int| 0 <= i < self.groups.len() && (#[trigger] self.groups[i]).name == name
    }
}

impl Principal {
    /// A principal with the given identity and no home.
    pub fn new(name: &str, uid: u32, groups: Vec<ResolvedGroup>) -> (r: Self)
        ensures
            r@ == (PrincipalView {
                name: name@,
                uid,
                groups: group_views(groups@),
                home: None,
            }),
    {
        Principal { name: name.to_owned(), uid, groups, home: None }
    }

    /// The principal with the given home directory.
    pub fn with_home(self, home: &str) -> (r: Self)
        ensures
            r@ == (PrincipalView { home: Some(home@), ..self@ }),
    {
        Principal { name: self.name, uid: self.uid, groups: self.groups, home: Some(home.to_owned()) }
    }

    /// The name of the principal's group with this gid, if it belongs to it.
    fn group_name_for_gid(&self, gid: u32) -> (r: Option<String>)
        ensures
            inspect::opt_text(r) == group_for_gid(self@.groups, gid),
    {
        let mut i: usize = 0;
        proof {
            assert(self@.groups.skip(0) =~= self@.groups);
        }
        while i < self.groups.len()
            invariant
                i <= self.groups@.len(),
                group_for_gid(self@.groups, gid) == group_for_gid(
                    self@.groups.skip(i as int),
                    gid,
                ),
            decreases self.groups@.len() - i,
        {
            proof {
                assert(self@.groups.skip(i as int)[0] == self.groups@[i as int]@);
                assert(self@.groups.skip(i as int).skip(1) =~= self@.groups.skip(i + 1));
            }
            if self.groups[i].gid == gid {
                return Some(self.groups[i].name.clone());
            }
            i += 1;
        }
        None
    }

    /// Whether the principal belongs to a group named `name`.
    fn in_named_group(&self, name: &str) -> (r: bool)
        ensures
            r == self@.in_group(name@),
    {
        let mut i: usize = 0;
        while i < self.groups.len()
            invariant
                i <= self.groups@.len(),
                forall|j: int| 0 <= j < i ==> (#[trigger] self@.groups[j]).name != name@,
            decreases self.groups@.len() - i,
        {
            proof {
                assert(self@.groups[i as int] == self.groups@[i as int]@);
            }
            if text::same(&self.groups[i].name, name) {
                return true;
            }
            i += 1;
        }
        false
    }
}

/// Why an access verdict was reached: the `acl(5)` precedence class that decided it.
#[derive(Debug, PartialEq, Eq)]
pub enum AccessVia {
    /// The principal owns the inode.
    Owner,
    /// A named-user ACL entry (`user:<name>:`) matched the principal.
    AclUser(String),
    /// A named-group ACL entry (`group:<name>:`) matched one of the principal's groups.
    AclGroup(String),
    /// The owning-group class matched one of the principal's groups.
    Group(String),
    /// None of the above matched; the `other` bits decided.
    OtherBits,
}

/// The contents of an [`AccessVia`].
#[verifier::ext_equal]
pub enum ViaView {
    /// The principal owns the inode.
    Owner,
    /// A named-user ACL entry matched.
    AclUser(Seq<char>),
    /// A named-group ACL entry matched.
    AclGroup(Seq<char>),
    /// The owning-group class matched.
    Group(Seq<char>),
    /// The `other` bits decided.
    OtherBits,
}

impl View for AccessVia {
    type V = ViaView;

    open spec fn view(&self) -> ViaView {
        match self {
            AccessVia::Owner => ViaView::Owner,
            AccessVia::AclUser(u) => ViaView::AclUser(u@),
            AccessVia::AclGroup(g) => ViaView::AclGroup(g@),
            AccessVia::Group(g) => ViaView::Group(g@),
            AccessVia::OtherBits => ViaView::OtherBits,
        }
    }
}

impl Clone for AccessVia {
    fn clone(&self) -> (r: Self)
        ensures
            r@ == self@,
    {
        match self {
            AccessVia::Owner => AccessVia::Owner,
            AccessVia::AclUser(u) => AccessVia::AclUser(u.clone()),
            AccessVia::AclGroup(g) => AccessVia::AclGroup(g.clone()),
            AccessVia::Group(g) => AccessVia::Group(g.clone()),
            AccessVia::OtherBits => AccessVia::OtherBits,
        }
    }
}

impl ViaView {
    /// The stable token of a reason.
    pub open spec fn text(self) -> Seq<char> {
        match self {
            ViaView::Owner => "owner"@,
            ViaView::AclUser(u) => "acl_user:"@ + u,
            ViaView::AclGroup(g) => "acl_group:"@ + g,
            ViaView::Group(g) => "group:"@ + g,
            ViaView::OtherBits => "other_bits"@,
        }
    }
}

impl AccessVia {
    /// The stable token for this reason (`owner`, `acl_user:<u>`, `acl_group:<g>`,
    /// `group:<g>`, `other_bits`).
    pub fn label(&self) -> (r: String)
        ensures
            r@ == self@.text(),
    {
        match self {
            AccessVia::Owner => "owner".to_owned(),
            AccessVia::AclUser(u) => text::join2("acl_user:", u),
            AccessVia::AclGroup(g) => text::join2("acl_group:", g),
            AccessVia::Group(g) => text::join2("group:", g),
            AccessVia::OtherBits => "other_bits".to_owned(),
        }
    }
}

/// A principal's effective access to an inode, plus the reason it was decided.
#[derive(Debug, Clone, PartialEq, Eq)]
pub struct Effective {
    /// The effective bits.
    pub access: AclPerms,
    /// The precedence class that decided the access.
    pub via: AccessVia,
}

/// The contents of an [`Effective`].
#[verifier::ext_equal]
pub struct EffectiveView {
    /// The effective bits.
    pub access: AclPerms,
    /// The precedence class that decided the access.
    pub via: ViaView,
}

impl View for Effective {
    type V = EffectiveView;

    open spec fn view(&self) -> EffectiveView {
        EffectiveView { access: self.access, via: self.via@ }
    }
}

// ---------------------------------------------------------------------------
// The access rule
// ---------------------------------------------------------------------------

/// One `rwx` triple of a mode word (shift 6 = owner, 3 = group, 0 = other).
pub open spec fn mode_bits(mode: u32, shift: u32) -> AclPerms {
    AclPerms {
        read: (mode >> shift) & 4 != 0,
        write: (mode >> shift) & 2 != 0,
        execute: (mode >> shift) & 1 != 0,
    }
}

/// The permissions of the first entry with this tag.
pub open spec fn perms_for(entries: Seq<acl::EntryView>, tag: acl::TagView) -> Option<AclPerms>
    decreases entries.len(),
{
    if entries.len() == 0 {
        None
    } else if entries[0].tag == tag {
        Some(entries[0].perms)
    } else {
        perms_for(entries.skip(1), tag)
    }
}

/// `o`, or `d` where there is nothing.
pub open spec fn perms_or(o: Option<AclPerms>, d: AclPerms) -> AclPerms {
    match o {
        Some(p) => p,
        None => d,
    }
}

/// The mask of an ACL; everything where it has none.
pub open spec fn mask_of(entries: Seq<acl::EntryView>) -> AclPerms {
    perms_or(perms_for(entries, acl::TagView::Mask), AclPerms::full())
}

/// An entry that applies to a principal, and what it would be credited as.
#[verifier::ext_equal]
pub struct Applying {
    /// What the entry would be credited as.
    pub via: ViaView,
    /// The bits it grants before the mask.
    pub perms: AclPerms,
}

/// The named-group entries among the first `n` that apply to a principal, in order.
pub open spec fn named_groups_upto(
    entries: Seq<acl::EntryView>,
    p: PrincipalView,
    n: nat,
) -> Seq<Applying>
    decreases n,
{
    if n == 0 {
        seq![]
    } else {
        let before = named_groups_upto(entries, p, (n - 1) as nat);
        match entries[n - 1].tag {
            acl::TagView::Group(g) => if p.in_group(g) {
                before.push(Applying { via: ViaView::AclGroup(g), perms: entries[n - 1].perms })
            } else {
                before
            },
            _ => before,
        }
    }
}

/// The owning-group entry, where it applies to a principal.
pub open spec fn owning_group(
    rec: index::RecordView,
    entries: Seq<acl::EntryView>,
    p: PrincipalView,
) -> Seq<Applying> {
    match (group_for_gid(p.groups, rec.gid), perms_for(entries, acl::TagView::GroupObj)) {
        (Some(g), Some(perms)) => seq![Applying { via: ViaView::Group(g), perms }],
        _ => seq![],
    }
}

/// The group-class entries that apply to a principal: the owning group first, then
/// the named groups in ACL order.
pub open spec fn applying(
    rec: index::RecordView,
    entries: Seq<acl::EntryView>,
    p: PrincipalView,
) -> Seq<Applying> {
    owning_group(rec, entries, p) + named_groups_upto(entries, p, entries.len())
}

/// The union of the first `n` entries after the mask.
pub open spec fn union_upto(list: Seq<Applying>, mask: AclPerms, n: nat) -> AclPerms
    decreases n,
{
    if n == 0 {
        AclPerms::none()
    } else {
        union_upto(list, mask, (n - 1) as nat).join(list[n - 1].perms.meet(mask))
    }
}

/// The first of the first `n` entries that grants a bit after the mask.
pub open spec fn granting_upto(list: Seq<Applying>, mask: AclPerms, n: nat) -> Option<ViaView>
    decreases n,
{
    if n == 0 {
        None
    } else {
        match granting_upto(list, mask, (n - 1) as nat) {
            Some(v) => Some(v),
            None => if list[n - 1].perms.meet(mask) != AclPerms::none() {
                Some(list[n - 1].via)
            } else {
                None
            },
        }
    }
}

/// The access that a group class gives, credited to the first entry that grants a
/// bit, or to the first entry where none does.
pub open spec fn group_class(list: Seq<Applying>, mask: AclPerms) -> EffectiveView {
    EffectiveView {
        access: union_upto(list, mask, list.len()),
        via: match granting_upto(list, mask, list.len()) {
            Some(v) => v,
            None => list[0].via,
        },
    }
}

/// The access check by mode bits.
pub open spec fn mode_effective(rec: index::RecordView, p: PrincipalView) -> EffectiveView {
    if p.uid == rec.uid {
        EffectiveView { access: mode_bits(rec.mode, 6), via: ViaView::Owner }
    } else {
        match group_for_gid(p.groups, rec.gid) {
            Some(g) => EffectiveView { access: mode_bits(rec.mode, 3), via: ViaView::Group(g) },
            None => EffectiveView { access: mode_bits(rec.mode, 0), via: ViaView::OtherBits },
        }
    }
}

/// The access check by an extended ACL.
pub open spec fn acl_effective(
    rec: index::RecordView,
    entries: Seq<acl::EntryView>,
    p: PrincipalView,
) -> EffectiveView {
    let mask = mask_of(entries);
    if p.uid == rec.uid {
        EffectiveView {
            access: perms_or(
                perms_for(entries, acl::TagView::UserObj),
                mode_bits(rec.mode, 6),
            ),
            via: ViaView::Owner,
        }
    } else {
        match perms_for(entries, acl::TagView::User(p.name)) {
            Some(perms) => EffectiveView {
                access: perms.meet(mask),
                via: ViaView::AclUser(p.name),
            },
            None => {
                let list = applying(rec, entries, p);
                if list.len() > 0 {
                    group_class(list, mask)
                } else {
                    EffectiveView {
                        access: perms_or(
                            perms_for(entries, acl::TagView::Other),
                            mode_bits(rec.mode, 0),
                        ),
                        via: ViaView::OtherBits,
                    }
                }
            },
        }
    }
}

/// The principal's effective access to an inode.
pub open spec fn effective_of(rec: index::RecordView, p: PrincipalView) -> EffectiveView {
    if p.uid == 0 {
        EffectiveView { access: AclPerms::full(), via: ViaView::Owner }
    } else {
        match rec.acl {
            Some(entries) => if acl::extended(entries) {
                acl_effective(rec, entries, p)
            } else {
                mode_effective(rec, p)
            },
            None => mode_effective(rec, p),
        }
    }
}

/// The principal's effective access to `record` under the POSIX (`acl(5)`) algorithm.
pub fn effective(record: &InodeRecord, principal: &Principal) -> (r: Effective)
    ensures
        r@ == effective_of(record@, principal@),
{
    if principal.uid == 0 {
        return Effective { access: AclPerms::all(), via: AccessVia::Owner };
    }
    match &record.acl {
        Some(acl) => {
            if acl.is_extended() {
                effective_acl(record, acl, principal)
            } else {
                effective_mode(record, principal)
            }
        },
        None => effective_mode(record, principal),
    }
}

/// The mode-bit access check for an inode without an extended ACL.
fn effective_mode(record: &InodeRecord, principal: &Principal) -> (r: Effective)
    ensures
        r@ == mode_effective(record@, principal@),
{
    if principal.uid == record.uid {
        return Effective { access: mode_triple(record.mode, 6), via: AccessVia::Owner };
    }
    match principal.group_name_for_gid(record.gid) {
        Some(name) => Effective {
            access: mode_triple(record.mode, 3),
            via: AccessVia::Group(name),
        },
        None => Effective { access: mode_triple(record.mode, 0), via: AccessVia::OtherBits },
    }
}

/// One entry that applies to a principal.
struct ApplyingEntry {
    via: AccessVia,
    perms: AclPerms,
}

/// The contents of a list of applying entries.
spec fn applying_views(v: Seq<ApplyingEntry>) -> Seq<Applying> {
    v.map_values(|e: ApplyingEntry| Applying { via: e.via@, perms: e.perms })
}

/// The ACL access check (precedence and mask) for an inode with an extended ACL.
fn effective_acl(record: &InodeRecord, acl: &AclEntries, principal: &Principal) -> (r: Effective)
    ensures
        r@ == acl_effective(record@, acl@, principal@),
{
    let mask = acl_mask(acl);
    if principal.uid == record.uid {
        let access = match find_perms(acl, &AclTag::UserObj) {
            Some(p) => p,
            None => mode_triple(record.mode, 6),
        };
        return Effective { access, via: AccessVia::Owner };
    }
    match find_perms(acl, &AclTag::User(principal.name.clone())) {
        Some(perms) => {
            return Effective {
                access: perms.masked(mask),
                via: AccessVia::AclUser(principal.name.clone()),
            };
        },
        None => {},
    }
    let list = applying_entries(record, acl, principal);
    if list.len() > 0 {
        return credit(&list, mask);
    }
    let access = match find_perms(acl, &AclTag::Other) {
        Some(p) => p,
        None => mode_triple(record.mode, 0),
    };
    Effective { access, via: AccessVia::OtherBits }
}

/// The group-class entries that apply to the principal.
fn applying_entries(record: &InodeRecord, acl: &AclEntries, principal: &Principal) -> (list: Vec<
    ApplyingEntry,
>)
    ensures
        applying_views(list@) == applying(record@, acl@, principal@),
{
    let mut list: Vec<ApplyingEntry> = Vec::new();
    match principal.group_name_for_gid(record.gid) {
        Some(name) => {
            match find_perms(acl, &AclTag::GroupObj) {
                Some(perms) => {
                    list.push(ApplyingEntry { via: AccessVia::Group(name), perms });
                },
                None => {},
            }
        },
        None => {},
    }
    let ghost own = owning_group(record@, acl@, principal@);
    proof {
        assert(applying_views(list@) =~= own);
    }
    let mut i: usize = 0;
    proof {
        assert(own =~= own + named_groups_upto(acl@, principal@, 0));
    }
    while i < acl.entries.len()
        invariant
            i <= acl.entries@.len(),
            applying_views(list@) == own + named_groups_upto(acl@, principal@, i as nat),
        decreases acl.entries@.len() - i,
    {
        let entry = &acl.entries[i];
        proof {
            assert(acl@[i as int] == entry@);
        }
        let ghost was = applying_views(list@);
        match &entry.tag {
            AclTag::Group(name) => {
                if principal.in_named_group(name) {
                    let ghost one = Applying {
                        via: ViaView::AclGroup(name@),
                        perms: entry.perms,
                    };
                    list.push(
                        ApplyingEntry {
                            via: AccessVia::AclGroup(name.clone()),
                            perms: entry.perms,
                        },
                    );
                    proof {
                        assert(applying_views(list@) =~= was.push(one));
                        assert(was.push(one) =~= own + named_groups_upto(
                            acl@,
                            principal@,
                            (i + 1) as nat,
                        ));
                    }
                }
            },
            _ => {},
        }
        i += 1;
    }
    list
}

/// The access of a group class and the entry it is credited to.
fn credit(list: &Vec<ApplyingEntry>, mask: AclPerms) -> (r: Effective)
    requires
        list@.len() > 0,
    ensures
        r@ == group_class(applying_views(list@), mask),
{
    let ghost views = applying_views(list@);
    let mut access = AclPerms::default();
    let mut credited = list[0].via.clone();
    let mut granting = false;
    let mut i: usize = 0;
    while i < list.len()
        invariant
            views == applying_views(list@),
            i <= list@.len(),
            list@.len() > 0,
            access == union_upto(views, mask, i as nat),
            granting == granting_upto(views, mask, i as nat) is Some,
            credited@ == (match granting_upto(views, mask, i as nat) {
                Some(v) => v,
                None => views[0].via,
            }),
        decreases list@.len() - i,
    {
        let masked = list[i].perms.masked(mask);
        access = access.union(masked);
        if masked.any() && !granting {
            credited = list[i].via.clone();
            granting = true;
        }
        i += 1;
    }
    Effective { access, via: credited }
}

/// One `rwx` triple of a mode word (6 = owner, 3 = group, 0 = other).
pub fn mode_triple(mode: u32, shift: u32) -> (r: AclPerms)
    requires
        shift < 32,
    ensures
        r == mode_bits(mode, shift),
{
    let bits = mode >> shift;
    AclPerms { read: bits & 4 != 0, write: bits & 2 != 0, execute: bits & 1 != 0 }
}

/// The mask, or a fully permissive one where the ACL carries none.
pub fn acl_mask(acl: &AclEntries) -> (r: AclPerms)
    ensures
        r == mask_of(acl@),
{
    match find_perms(acl, &AclTag::Mask) {
        Some(p) => p,
        None => AclPerms::all(),
    }
}

/// Whether two tags are equal.
fn same_tag(a: &AclTag, b: &AclTag) -> (r: bool)
    ensures
        r == (a@ == b@),
{
    match (a, b) {
        (AclTag::UserObj, AclTag::UserObj) => true,
        (AclTag::User(x), AclTag::User(y)) => text::same(x, y),
        (AclTag::GroupObj, AclTag::GroupObj) => true,
        (AclTag::Group(x), AclTag::Group(y)) => text::same(x, y),
        (AclTag::Mask, AclTag::Mask) => true,
        (AclTag::Other, AclTag::Other) => true,
        _ => false,
    }
}

/// The permissions of the first entry with this tag.
pub fn find_perms(acl: &AclEntries, tag: &AclTag) -> (r: Option<AclPerms>)
    ensures
        r == perms_for(acl@, tag@),
{
    let mut i: usize = 0;
    proof {
        assert(acl@.skip(0) =~= acl@);
    }
    while i < acl.entries.len()
        invariant
            i <= acl.entries@.len(),
            perms_for(acl@, tag@) == perms_for(acl@.skip(i as int), tag@),
        decreases acl.entries@.len() - i,
    {
        proof {
            assert(acl@.skip(i as int)[0] == acl.entries@[i as int]@);
            assert(acl@.skip(i as int).skip(1) =~= acl@.skip(i + 1));
        }
        if same_tag(&acl.entries[i].tag, tag) {
            return Some(acl.entries[i].perms);
        }
        i += 1;
    }
    None
}

// ---------------------------------------------------------------------------
// Principal resolution
// ---------------------------------------------------------------------------

/// The name that a gid is known by: that of its group, or the number itself.
pub open spec fn gid_name(h: HostFacts, gid: u32) -> Seq<char> {
    match inspect::name_with_gid(h.groups.seq(), gid) {
        Some(n) => n,
        None => text::decimal(gid as nat),
    }
}

/// Whether some group of the list has this gid.
pub open spec fn has_gid(groups: Seq<GroupView>, gid: u32) -> bool {
    exists|i: int| 0 <= i < groups.len() && (#[trigger] groups[i]).gid == gid
}

/// The list with one more group, unless its gid is there already.
pub open spec fn with_group(groups: Seq<GroupView>, g: GroupView) -> Seq<GroupView> {
    if has_gid(groups, g.gid) {
        groups
    } else {
        groups.push(g)
    }
}

/// The primary group of an account, where its gid is known.
pub open spec fn primary_group(h: HostFacts, name: Seq<char>) -> Seq<GroupView> {
    match h.primary_gids.lookup(name) {
        Some(gid) => seq![GroupView { name: gid_name(h, gid), gid }],
        None => seq![],
    }
}

/// `start` and those of the first `n` named groups that the group database knows.
pub open spec fn groups_upto(
    h: HostFacts,
    start: Seq<GroupView>,
    names: Seq<Seq<char>>,
    n: nat,
) -> Seq<GroupView>
    decreases n,
{
    if n == 0 {
        start
    } else {
        let before = groups_upto(h, start, names, (n - 1) as nat);
        match h.groups.lookup(names[n - 1]) {
            Some(facts) => with_group(before, GroupView { name: names[n - 1], gid: facts.gid }),
            None => before,
        }
    }
}

/// The principal of an account.
pub open spec fn account_principal(
    h: HostFacts,
    name: Seq<char>,
    account: AccountFacts,
) -> PrincipalView {
    PrincipalView {
        name,
        uid: account.uid,
        groups: groups_upto(
            h,
            primary_group(h, name),
            text::views(account.groups@),
            account.groups@.len(),
        ),
        home: Some(account.home@),
    }
}

/// The name that a login name or numeric uid stands for.
pub open spec fn principal_name(h: HostFacts, name_or_uid: Seq<char>) -> Seq<char> {
    match text::u32_of(name_or_uid) {
        Some(uid) => match inspect::name_with_uid(h.accounts.seq(), uid) {
            Some(n) => n,
            None => name_or_uid,
        },
        None => name_or_uid,
    }
}

/// The principal that a login name or numeric uid resolves to. A number without an
/// account is an orphan uid with no groups; a name without an account is nobody.
pub open spec fn principal_of(h: HostFacts, name_or_uid: Seq<char>) -> Option<PrincipalView> {
    let name = principal_name(h, name_or_uid);
    match h.accounts.lookup(name) {
        Some(account) => Some(account_principal(h, name, account)),
        None => match text::u32_of(name_or_uid) {
            Some(uid) => Some(
                PrincipalView {
                    name: text::decimal(uid as nat),
                    uid,
                    groups: seq![],
                    home: None,
                },
            ),
            None => None,
        },
    }
}

/// The contents of an optional principal.
pub open spec fn opt_principal(p: Option<Principal>) -> Option<PrincipalView> {
    match p {
        Some(p) => Some(p@),
        None => None,
    }
}

/// Resolve a principal given as a login name or a numeric uid into its uid, primary
/// group, and supplementary groups.
///
/// Group membership is what the local databases say; a supplementary group that they
/// cannot resolve to a gid is left out, which under-reports.
pub fn resolve_principal(facts: &HostFacts, name_or_uid: &str) -> (r: Option<Principal>)
    ensures
        opt_principal(r) == principal_of(*facts, name_or_uid@),
{
    let numeric = text::parse_u32(name_or_uid);
    let name = match numeric {
        Some(uid) => match facts.account_name_by_uid(uid) {
            Some(n) => n,
            None => name_or_uid.to_owned(),
        },
        None => name_or_uid.to_owned(),
    };
    match facts.accounts.get(&name) {
        None => {
            match numeric {
                Some(uid) => {
                    let groups: Vec<ResolvedGroup> = Vec::new();
                    proof {
                        assert(group_views(groups@) =~= Seq::<GroupView>::empty());
                    }
                    Some(Principal { name: text::decimal_string(uid as u64), uid, groups, home: None })
                },
                None => None,
            }
        },
        Some(account) => {
            let groups = account_groups(facts, &name, account);
            Some(
                Principal {
                    name,
                    uid: account.uid,
                    groups,
                    home: Some(account.home.clone()),
                },
            )
        },
    }
}

/// The groups of an account: primary first, then supplementary.
fn account_groups(facts: &HostFacts, name: &str, account: &AccountFacts) -> (groups: Vec<
    ResolvedGroup,
>)
    ensures
        group_views(groups@) == account_principal(*facts, name@, *account).groups,
{
    let mut groups: Vec<ResolvedGroup> = Vec::new();
    match facts.primary_gids.get(name) {
        Some(gid) => {
            let gid = *gid;
            let primary = match facts.group_name_by_gid(gid) {
                Some(n) => n,
                None => text::decimal_string(gid as u64),
            };
            push_unique_group(&mut groups, primary, gid);
        },
        None => {},
    }
    let ghost start = primary_group(*facts, name@);
    let ghost names = text::views(account.groups@);
    proof {
        assert(group_views(groups@) =~= start);
    }
    let mut i: usize = 0;
    while i < account.groups.len()
        invariant
            names == text::views(account.groups@),
            i <= account.groups@.len(),
            group_views(groups@) == groups_upto(*facts, start, names, i as nat),
        decreases account.groups@.len() - i,
    {
        let gname = &account.groups[i];
        proof {
            assert(names[i as int] == gname@);
        }
        match facts.groups.get(gname) {
            Some(g) => {
                push_unique_group(&mut groups, gname.clone(), g.gid);
            },
            None => {},
        }
        i += 1;
    }
    groups
}

/// Append a group if its gid is not already present.
fn push_unique_group(groups: &mut Vec<ResolvedGroup>, name: String, gid: u32)
    ensures
        group_views(final(groups)@) == with_group(
            group_views(old(groups)@),
            GroupView { name: name@, gid },
        ),
{
    let ghost was = group_views(groups@);
    let mut i: usize = 0;
    while i < groups.len()
        invariant
            was == group_views(groups@),
            *groups == *old(groups),
            i <= groups@.len(),
            forall|j: int| 0 <= j < i ==> (#[trigger] was[j]).gid != gid,
        decreases groups@.len() - i,
    {
        proof {
            assert(was[i as int] == groups@[i as int]@);
        }
        if groups[i].gid == gid {
            return;
        }
        i += 1;
    }
    let ghost g = GroupView { name: name@, gid };
    groups.push(ResolvedGroup { name, gid });
    proof {
        assert(group_views(groups@) =~= was.push(g));
    }
}

// ---------------------------------------------------------------------------
// Laws
// ---------------------------------------------------------------------------

/// The superuser has full access to every inode.
pub proof fn root_has_full_access(rec: index::RecordView, p: PrincipalView)
    requires
        p.uid == 0,
    ensures
        effective_of(rec, p) == (EffectiveView { access: AclPerms::full(), via: ViaView::Owner }),
{
}

/// A trivial ACL says no more than the mode: without an extended entry it changes
/// nothing.
pub proof fn trivial_acls_change_nothing(rec: index::RecordView, p: PrincipalView)
    requires
        rec.acl matches Some(entries) && !acl::extended(entries),
    ensures
        effective_of(rec, p) == effective_of(index::RecordView { acl: None, ..rec }, p),
{
}

/// The union of masked grants is within the mask.
proof fn lemma_union_masked(list: Seq<Applying>, mask: AclPerms, n: nat)
    requires
        n <= list.len(),
    ensures
        union_upto(list, mask, n).meet(mask) == union_upto(list, mask, n),
    decreases n,
{
    if n > 0 {
        lemma_union_masked(list, mask, (n - 1) as nat);
    }
}

/// The mask caps every named entry and the owning group: what they grant beyond it is not
/// effective. The owner and the others are not masked.
pub proof fn the_mask_caps_named_and_group_entries(
    rec: index::RecordView,
    entries: Seq<acl::EntryView>,
    p: PrincipalView,
)
    ensures
        acl_effective(rec, entries, p).via is Owner ==> acl_effective(rec, entries, p).access
            == perms_or(perms_for(entries, acl::TagView::UserObj), mode_bits(rec.mode, 6)),
        acl_effective(rec, entries, p).via is OtherBits ==> acl_effective(rec, entries, p).access
            == perms_or(perms_for(entries, acl::TagView::Other), mode_bits(rec.mode, 0)),
        !(acl_effective(rec, entries, p).via is Owner) && !(acl_effective(
            rec,
            entries,
            p,
        ).via is OtherBits) ==> acl_effective(rec, entries, p).access.meet(mask_of(entries))
            == acl_effective(rec, entries, p).access,
{
    let list = applying(rec, entries, p);
    lemma_union_masked(list, mask_of(entries), list.len());
    if p.uid != rec.uid && perms_for(entries, acl::TagView::User(p.name)) is None && list.len()
        > 0 {
        group_class_never_falls_through(rec, entries, p);
    }
}

/// An applying named group is credited as a named group.
proof fn lemma_named_groups(entries: Seq<acl::EntryView>, p: PrincipalView, n: nat)
    requires
        n <= entries.len(),
    ensures
        forall|i: int|
            0 <= i < named_groups_upto(entries, p, n).len() ==> (
            #[trigger] named_groups_upto(entries, p, n)[i]).via is AclGroup,
    decreases n,
{
    if n > 0 {
        lemma_named_groups(entries, p, (n - 1) as nat);
    }
}

/// Every applying entry is credited as a group.
proof fn lemma_applying(rec: index::RecordView, entries: Seq<acl::EntryView>, p: PrincipalView)
    ensures
        forall|i: int|
            0 <= i < applying(rec, entries, p).len() ==> {
                let e = #[trigger] applying(rec, entries, p)[i];
                e.via is AclGroup || e.via is Group
            },
{
    lemma_named_groups(entries, p, entries.len());
    let own = owning_group(rec, entries, p);
    let named = named_groups_upto(entries, p, entries.len());
    assert forall|i: int| 0 <= i < applying(rec, entries, p).len() implies {
        let e = #[trigger] applying(rec, entries, p)[i];
        e.via is AclGroup || e.via is Group
    } by {
        if i >= own.len() {
            assert(applying(rec, entries, p)[i] == named[i - own.len()]);
        }
    }
}

/// The entry that is credited with the union grants some of it.
proof fn lemma_granting(list: Seq<Applying>, mask: AclPerms, n: nat)
    requires
        n <= list.len(),
    ensures
        granting_upto(list, mask, n) is None <==> union_upto(list, mask, n) == AclPerms::none(),
        granting_upto(list, mask, n) matches Some(v) ==> exists|i: int|
            0 <= i < n && (#[trigger] list[i]).via == v && list[i].perms.meet(mask)
                != AclPerms::none(),
    decreases n,
{
    if n > 0 {
        lemma_granting(list, mask, (n - 1) as nat);
        let before = union_upto(list, mask, (n - 1) as nat);
        let e = list[n - 1].perms.meet(mask);
        assert(before.join(e) == AclPerms::none() <==> before == AclPerms::none() && e
            == AclPerms::none());
    }
}

/// Once a group entry applies, the `other` bits are out of play: access that no group
/// entry grants is denied, and no other entry is credited.
pub proof fn group_class_never_falls_through(
    rec: index::RecordView,
    entries: Seq<acl::EntryView>,
    p: PrincipalView,
)
    requires
        p.uid != rec.uid,
        perms_for(entries, acl::TagView::User(p.name)) is None,
        applying(rec, entries, p).len() > 0,
    ensures
        acl_effective(rec, entries, p).via is AclGroup || acl_effective(
            rec,
            entries,
            p,
        ).via is Group,
        acl_effective(rec, entries, p).access == union_upto(
            applying(rec, entries, p),
            mask_of(entries),
            applying(rec, entries, p).len(),
        ),
{
    let list = applying(rec, entries, p);
    lemma_applying(rec, entries, p);
    lemma_granting(list, mask_of(entries), list.len());
}

/// Where a group entry applies and access is granted, the entry that is credited grants
/// some of it.
pub proof fn the_credited_entry_grants(
    rec: index::RecordView,
    entries: Seq<acl::EntryView>,
    p: PrincipalView,
)
    requires
        p.uid != rec.uid,
        perms_for(entries, acl::TagView::User(p.name)) is None,
        applying(rec, entries, p).len() > 0,
        acl_effective(rec, entries, p).access != AclPerms::none(),
    ensures
        exists|i: int|
            {
                &&& 0 <= i < applying(rec, entries, p).len()
                &&& (#[trigger] applying(rec, entries, p)[i]).via == acl_effective(
                    rec,
                    entries,
                    p,
                ).via
                &&& applying(rec, entries, p)[i].perms.meet(mask_of(entries)) != AclPerms::none()
            },
{
    let list = applying(rec, entries, p);
    lemma_granting(list, mask_of(entries), list.len());
}

/// Groups are distinct up to the first `n` names.
proof fn lemma_distinct_gids(
    h: HostFacts,
    start: Seq<GroupView>,
    names: Seq<Seq<char>>,
    n: nat,
)
    requires
        forall|i: int, j: int|
            0 <= i < j < start.len() ==> (#[trigger] start[i]).gid != (#[trigger] start[j]).gid,
    ensures
        forall|i: int, j: int|
            0 <= i < j < groups_upto(h, start, names, n).len() ==> (
            #[trigger] groups_upto(h, start, names, n)[i]).gid != (
            #[trigger] groups_upto(h, start, names, n)[j]).gid,
    decreases n,
{
    if n > 0 {
        lemma_distinct_gids(h, start, names, (n - 1) as nat);
        let before = groups_upto(h, start, names, (n - 1) as nat);
        let now = groups_upto(h, start, names, n);
        assert forall|i: int, j: int| 0 <= i < j < now.len() implies (#[trigger] now[i]).gid != (
        #[trigger] now[j]).gid by {
            assert(now[i] == before[i]);
            if j < before.len() {
                assert(now[j] == before[j]);
            }
        }
    }
}

/// A resolved principal is in no group twice.
pub proof fn resolved_groups_are_distinct(h: HostFacts, name_or_uid: Seq<char>)
    requires
        principal_of(h, name_or_uid) is Some,
    ensures
        forall|i: int, j: int|
            0 <= i < j < principal_of(h, name_or_uid)->0.groups.len() ==> (
            #[trigger] principal_of(h, name_or_uid)->0.groups[i]).gid != (
            #[trigger] principal_of(h, name_or_uid)->0.groups[j]).gid,
{
    let name = principal_name(h, name_or_uid);
    match h.accounts.lookup(name) {
        Some(account) => {
            lemma_distinct_gids(
                h,
                primary_group(h, name),
                text::views(account.groups@),
                account.groups@.len(),
            );
        },
        None => {},
    }
}

/// A uid without an account is auditable all the same: it is in no group and has no home,
/// so only the owner and the other bits speak of it.
pub proof fn orphan_uids_are_in_no_group(h: HostFacts, name_or_uid: Seq<char>)
    requires
        text::u32_of(name_or_uid) is Some,
        h.accounts.lookup(principal_name(h, name_or_uid)) is None,
    ensures
        principal_of(h, name_or_uid) matches Some(p) && p.uid == text::u32_of(name_or_uid)->0
            && p.groups.len() == 0 && p.home is None,
{
}

/// The group that is found for a gid is the first that has it, wherever it stands in the
/// list; none is found only where none has it.
pub proof fn the_first_group_with_a_gid(groups: Seq<GroupView>, gid: u32)
    ensures
        match group_for_gid(groups, gid) {
            None => forall|i: int| 0 <= i < groups.len() ==> (#[trigger] groups[i]).gid != gid,
            Some(name) => exists|i: int|
                {
                    &&& 0 <= i < groups.len()
                    &&& (#[trigger] groups[i]).gid == gid
                    &&& groups[i].name == name
                    &&& forall|j: int| 0 <= j < i ==> (#[trigger] groups[j]).gid != gid
                },
        },
    decreases groups.len(),
{
    if groups.len() > 0 && groups[0].gid != gid {
        let rest = groups.skip(1);
        the_first_group_with_a_gid(rest, gid);
        match group_for_gid(rest, gid) {
            None => {
                assert forall|i: int| 0 <= i < groups.len() implies (#[trigger] groups[i]).gid
                    != gid by {
                    if i > 0 {
                        assert(rest[i - 1] == groups[i]);
                    }
                }
            },
            Some(name) => {
                let i = choose|i: int|
                    {
                        &&& 0 <= i < rest.len()
                        &&& (#[trigger] rest[i]).gid == gid
                        &&& rest[i].name == name
                        &&& forall|j: int| 0 <= j < i ==> (#[trigger] rest[j]).gid != gid
                    };
                assert(groups[i + 1] == rest[i]);
                assert forall|j: int| 0 <= j < i + 1 implies (#[trigger] groups[j]).gid != gid by {
                    if j > 0 {
                        assert(rest[j - 1] == groups[j]);
                    }
                }
            },
        }
    }
}

/// The permissions that are found for a tag are those of the first entry that has it; none
/// are found only where no entry has it.
pub proof fn the_first_entry_with_a_tag(entries: Seq<acl::EntryView>, tag: acl::TagView)
    ensures
        match perms_for(entries, tag) {
            None => forall|i: int| 0 <= i < entries.len() ==> (#[trigger] entries[i]).tag != tag,
            Some(perms) => exists|i: int|
                {
                    &&& 0 <= i < entries.len()
                    &&& (#[trigger] entries[i]).tag == tag
                    &&& entries[i].perms == perms
                    &&& forall|j: int| 0 <= j < i ==> (#[trigger] entries[j]).tag != tag
                },
        },
    decreases entries.len(),
{
    if entries.len() > 0 && entries[0].tag != tag {
        let rest = entries.skip(1);
        the_first_entry_with_a_tag(rest, tag);
        match perms_for(rest, tag) {
            None => {
                assert forall|i: int| 0 <= i < entries.len() implies (#[trigger] entries[i]).tag
                    != tag by {
                    if i > 0 {
                        assert(rest[i - 1] == entries[i]);
                    }
                }
            },
            Some(perms) => {
                let i = choose|i: int|
                    {
                        &&& 0 <= i < rest.len()
                        &&& (#[trigger] rest[i]).tag == tag
                        &&& rest[i].perms == perms
                        &&& forall|j: int| 0 <= j < i ==> (#[trigger] rest[j]).tag != tag
                    };
                assert(entries[i + 1] == rest[i]);
                assert forall|j: int| 0 <= j < i + 1 implies (#[trigger] entries[j]).tag != tag by {
                    if j > 0 {
                        assert(rest[j - 1] == entries[j]);
                    }
                }
            },
        }
    }
}

/// The triples of a mode are its octal digits: the bits 0400, 0200 and 0100 are the owner's,
/// 040, 020 and 010 the group's, 4, 2 and 1 the others'.
pub proof fn mode_triples_by_octal_digit(mode: u32)
    ensures
        mode_bits(mode, 6).read <==> mode & 0o400 != 0,
        mode_bits(mode, 6).write <==> mode & 0o200 != 0,
        mode_bits(mode, 6).execute <==> mode & 0o100 != 0,
        mode_bits(mode, 3).read <==> mode & 0o040 != 0,
        mode_bits(mode, 3).write <==> mode & 0o020 != 0,
        mode_bits(mode, 3).execute <==> mode & 0o010 != 0,
        mode_bits(mode, 0).read <==> mode & 0o004 != 0,
        mode_bits(mode, 0).write <==> mode & 0o002 != 0,
        mode_bits(mode, 0).execute <==> mode & 0o001 != 0,
{
    assert({
        &&& ((mode >> 6) & 4 != 0) == (mode & 256 != 0)
        &&& ((mode >> 6) & 2 != 0) == (mode & 128 != 0)
        &&& ((mode >> 6) & 1 != 0) == (mode & 64 != 0)
        &&& ((mode >> 3) & 4 != 0) == (mode & 32 != 0)
        &&& ((mode >> 3) & 2 != 0) == (mode & 16 != 0)
        &&& ((mode >> 3) & 1 != 0) == (mode & 8 != 0)
        &&& ((mode >> 0) & 4 != 0) == (mode & 4 != 0)
        &&& ((mode >> 0) & 2 != 0) == (mode & 2 != 0)
        &&& ((mode >> 0) & 1 != 0) == (mode & 1 != 0)
    }) by (bit_vector);
}

/// Without an extended ACL the mode decides. The owner has the owner's bits. Anyone else
/// who is in the owning group, at whatever place of the list it stands, has the group's
/// bits, by the name that the first such group has. Everyone else has the others' bits.
pub proof fn the_mode_decides_without_an_extended_acl(rec: index::RecordView, p: PrincipalView)
    requires
        p.uid != 0,
        rec.acl matches Some(entries) ==> forall|i: int|
            0 <= i < entries.len() ==> {
                let t = (#[trigger] entries[i]).tag;
                !(t is User) && !(t is Group) && !(t is Mask)
            },
    ensures
        p.uid == rec.uid ==> effective_of(rec, p) == (EffectiveView {
            access: AclPerms {
                read: rec.mode & 0o400 != 0,
                write: rec.mode & 0o200 != 0,
                execute: rec.mode & 0o100 != 0,
            },
            via: ViaView::Owner,
        }),
        p.uid != rec.uid ==> (forall|i: int|
            0 <= i < p.groups.len() && (#[trigger] p.groups[i]).gid == rec.gid && (forall|j: int|
                0 <= j < i ==> (#[trigger] p.groups[j]).gid != rec.gid) ==> effective_of(rec, p)
                == (EffectiveView {
                access: AclPerms {
                    read: rec.mode & 0o040 != 0,
                    write: rec.mode & 0o020 != 0,
                    execute: rec.mode & 0o010 != 0,
                },
                via: ViaView::Group(p.groups[i].name),
            })),
        p.uid != rec.uid && (exists|i: int|
            0 <= i < p.groups.len() && (#[trigger] p.groups[i]).gid == rec.gid) ==> effective_of(
            rec,
            p,
        ).via is Group && effective_of(rec, p).access == (AclPerms {
            read: rec.mode & 0o040 != 0,
            write: rec.mode & 0o020 != 0,
            execute: rec.mode & 0o010 != 0,
        }),
        p.uid != rec.uid && (forall|i: int|
            0 <= i < p.groups.len() ==> (#[trigger] p.groups[i]).gid != rec.gid) ==> effective_of(
            rec,
            p,
        ) == (EffectiveView {
            access: AclPerms {
                read: rec.mode & 0o004 != 0,
                write: rec.mode & 0o002 != 0,
                execute: rec.mode & 0o001 != 0,
            },
            via: ViaView::OtherBits,
        }),
{
    the_first_group_with_a_gid(p.groups, rec.gid);
    mode_triples_by_octal_digit(rec.mode);
}

/// The bits that a set of applying entries gives are those that some entry of it and the
/// mask both have.
proof fn lemma_union(list: Seq<Applying>, mask: AclPerms, n: nat)
    requires
        n <= list.len(),
    ensures
        union_upto(list, mask, n).read <==> mask.read && exists|i: int|
            0 <= i < n && (#[trigger] list[i]).perms.read,
        union_upto(list, mask, n).write <==> mask.write && exists|i: int|
            0 <= i < n && (#[trigger] list[i]).perms.write,
        union_upto(list, mask, n).execute <==> mask.execute && exists|i: int|
            0 <= i < n && (#[trigger] list[i]).perms.execute,
        match granting_upto(list, mask, n) {
            None => forall|i: int|
                0 <= i < n ==> (#[trigger] list[i]).perms.meet(mask) == AclPerms::none(),
            Some(v) => exists|i: int|
                {
                    &&& 0 <= i < n
                    &&& (#[trigger] list[i]).via == v
                    &&& list[i].perms.meet(mask) != AclPerms::none()
                    &&& forall|j: int|
                        0 <= j < i ==> (#[trigger] list[j]).perms.meet(mask) == AclPerms::none()
                },
        },
    decreases n,
{
    if n > 0 {
        lemma_union(list, mask, (n - 1) as nat);
        let before = union_upto(list, mask, (n - 1) as nat);
        let now = union_upto(list, mask, n);
        let e = list[n - 1];
        assert(now.read <==> before.read || (e.perms.read && mask.read));
        assert(now.write <==> before.write || (e.perms.write && mask.write));
        assert(now.execute <==> before.execute || (e.perms.execute && mask.execute));
    }
}

/// The group class: a bit is given where the mask has it and some applying entry has it. It
/// is credited to the first entry that gives a bit, or to the first of all where none does.
pub proof fn the_group_class_is_a_masked_union(list: Seq<Applying>, mask: AclPerms)
    requires
        list.len() > 0,
    ensures
        group_class(list, mask).access.read <==> mask.read && exists|i: int|
            0 <= i < list.len() && (#[trigger] list[i]).perms.read,
        group_class(list, mask).access.write <==> mask.write && exists|i: int|
            0 <= i < list.len() && (#[trigger] list[i]).perms.write,
        group_class(list, mask).access.execute <==> mask.execute && exists|i: int|
            0 <= i < list.len() && (#[trigger] list[i]).perms.execute,
        ({
            let gives = |e: Applying|
                (e.perms.read && mask.read) || (e.perms.write && mask.write) || (e.perms.execute
                    && mask.execute);
            ||| exists|i: int|
                {
                    &&& 0 <= i < list.len()
                    &&& group_class(list, mask).via == (#[trigger] list[i]).via
                    &&& gives(list[i])
                    &&& forall|j: int| 0 <= j < i ==> !gives(#[trigger] list[j])
                }
            ||| group_class(list, mask).via == list[0].via && forall|j: int|
                0 <= j < list.len() ==> !gives(#[trigger] list[j])
        }),
{
    lemma_union(list, mask, list.len());
    let gives = |e: Applying|
        (e.perms.read && mask.read) || (e.perms.write && mask.write) || (e.perms.execute
            && mask.execute);
    assert forall|i: int| 0 <= i < list.len() implies gives(list[i]) == ((
    #[trigger] list[i]).perms.meet(mask) != AclPerms::none()) by {}
    match granting_upto(list, mask, list.len()) {
        Some(v) => {
            let i = choose|i: int|
                {
                    &&& 0 <= i < list.len()
                    &&& (#[trigger] list[i]).via == v
                    &&& list[i].perms.meet(mask) != AclPerms::none()
                    &&& forall|j: int|
                        0 <= j < i ==> (#[trigger] list[j]).perms.meet(mask) == AclPerms::none()
                };
            assert(gives(list[i]));
            assert forall|j: int| 0 <= j < i implies !gives(#[trigger] list[j]) by {}
            assert(group_class(list, mask).via == list[i].via);
        },
        None => {
            assert forall|j: int| 0 <= j < list.len() implies !gives(#[trigger] list[j]) by {}
        },
    }
}

/// One entry more: a named group that the principal is in applies, by its name, and no
/// other entry does.
pub proof fn named_groups_apply_to_their_members(
    entries: Seq<acl::EntryView>,
    p: PrincipalView,
    n: nat,
)
    requires
        n < entries.len(),
    ensures
        named_groups_upto(entries, p, 0).len() == 0,
        entries[n as int].tag matches acl::TagView::Group(g) && (exists|i: int|
            0 <= i < p.groups.len() && (#[trigger] p.groups[i]).name == g) ==> named_groups_upto(
            entries,
            p,
            n + 1,
        ) == named_groups_upto(entries, p, n).push(
            Applying {
                via: ViaView::AclGroup(entries[n as int].tag->Group_0),
                perms: entries[n as int].perms,
            },
        ),
        !(entries[n as int].tag matches acl::TagView::Group(g) && (exists|i: int|
            0 <= i < p.groups.len() && (#[trigger] p.groups[i]).name == g)) ==> named_groups_upto(
            entries,
            p,
            n + 1,
        ) == named_groups_upto(entries, p, n),
{
}

/// Whether an entry of the group class speaks of a principal: the owning group's entry
/// where it is in the owning group, a named group's where it is in a group of that name.
pub open spec fn speaks_of(
    rec: index::RecordView,
    entry: acl::EntryView,
    p: PrincipalView,
) -> bool {
    match entry.tag {
        acl::TagView::GroupObj => exists|i: int|
            0 <= i < p.groups.len() && (#[trigger] p.groups[i]).gid == rec.gid,
        acl::TagView::Group(g) => exists|i: int|
            0 <= i < p.groups.len() && (#[trigger] p.groups[i]).name == g,
        _ => false,
    }
}

/// The applying named groups are the entries of named groups that the principal is in.
proof fn lemma_named(entries: Seq<acl::EntryView>, p: PrincipalView, n: nat)
    requires
        n <= entries.len(),
    ensures
        forall|k: int|
            0 <= k < named_groups_upto(entries, p, n).len() ==> {
                let e = #[trigger] named_groups_upto(entries, p, n)[k];
                exists|i: int|
                    {
                        &&& 0 <= i < n
                        &&& (#[trigger] entries[i]).perms == e.perms
                        &&& entries[i].tag matches acl::TagView::Group(g) && p.in_group(g) && e.via
                            == ViaView::AclGroup(g)
                    }
            },
        forall|i: int|
            0 <= i < n && ((#[trigger] entries[i]).tag matches acl::TagView::Group(g)
                && p.in_group(g)) ==> exists|k: int|
                {
                    &&& 0 <= k < named_groups_upto(entries, p, n).len()
                    &&& (#[trigger] named_groups_upto(entries, p, n)[k]).perms == entries[i].perms
                },
    decreases n,
{
    if n > 0 {
        lemma_named(entries, p, (n - 1) as nat);
        let before = named_groups_upto(entries, p, (n - 1) as nat);
        let now = named_groups_upto(entries, p, n);
        assert forall|k: int| 0 <= k < now.len() implies {
            let e = #[trigger] now[k];
            exists|i: int|
                {
                    &&& 0 <= i < n
                    &&& (#[trigger] entries[i]).perms == e.perms
                    &&& entries[i].tag matches acl::TagView::Group(g) && p.in_group(g) && e.via
                        == ViaView::AclGroup(g)
                }
        } by {
            if k < before.len() {
                assert(now[k] == before[k]);
                let i = choose|i: int|
                    {
                        &&& 0 <= i < n - 1
                        &&& (#[trigger] entries[i]).perms == before[k].perms
                        &&& entries[i].tag matches acl::TagView::Group(g) && p.in_group(g)
                            && before[k].via == ViaView::AclGroup(g)
                    };
                assert(entries[i].perms == now[k].perms);
            } else {
                assert(entries[n - 1].perms == now[k].perms);
            }
        }
        assert forall|i: int|
            0 <= i < n && ((#[trigger] entries[i]).tag matches acl::TagView::Group(g)
                && p.in_group(g)) implies exists|k: int|
            {
                &&& 0 <= k < now.len()
                &&& (#[trigger] now[k]).perms == entries[i].perms
            } by {
            if i < n - 1 {
                let k = choose|k: int|
                    0 <= k < before.len() && (#[trigger] before[k]).perms == entries[i].perms;
                assert(now[k] == before[k]);
            } else {
                assert(now[before.len() as int].perms == entries[i].perms);
            }
        }
    }
}

/// The applying entries are those of the ACL that speak of the principal.
proof fn lemma_spoken(rec: index::RecordView, entries: Seq<acl::EntryView>, p: PrincipalView)
    requires
        forall|i: int, j: int|
            0 <= i < j < entries.len() ==> !((#[trigger] entries[i]).tag is GroupObj && (
            #[trigger] entries[j]).tag is GroupObj),
    ensures
        forall|k: int|
            0 <= k < applying(rec, entries, p).len() ==> exists|i: int|
                {
                    &&& 0 <= i < entries.len()
                    &&& speaks_of(rec, #[trigger] entries[i], p)
                    &&& entries[i].perms == (#[trigger] applying(rec, entries, p)[k]).perms
                },
        forall|i: int|
            0 <= i < entries.len() && speaks_of(rec, #[trigger] entries[i], p) ==> exists|k: int|
                0 <= k < applying(rec, entries, p).len() && (
                #[trigger] applying(rec, entries, p)[k]).perms == entries[i].perms,
{
    let list = applying(rec, entries, p);
    let own = owning_group(rec, entries, p);
    let named = named_groups_upto(entries, p, entries.len());
    lemma_named(entries, p, entries.len());
    the_first_group_with_a_gid(p.groups, rec.gid);
    the_first_entry_with_a_tag(entries, acl::TagView::GroupObj);
    // Every applying entry is one of the ACL that speaks of the principal.
    assert forall|k: int| 0 <= k < list.len() implies exists|i: int|
        {
            &&& 0 <= i < entries.len()
            &&& speaks_of(rec, #[trigger] entries[i], p)
            &&& entries[i].perms == (#[trigger] list[k]).perms
        } by {
        if k < own.len() {
            assert(list[k] == own[k]);
            let i = choose|i: int|
                {
                    &&& 0 <= i < entries.len()
                    &&& (#[trigger] entries[i]).tag == acl::TagView::GroupObj
                    &&& entries[i].perms == own[0].perms
                };
            assert(speaks_of(rec, entries[i], p));
        } else {
            let e = named[k - own.len()];
            assert(list[k] == e);
            let i = choose|i: int|
                {
                    &&& 0 <= i < entries.len()
                    &&& (#[trigger] entries[i]).perms == e.perms
                    &&& entries[i].tag matches acl::TagView::Group(g) && p.in_group(g) && e.via
                        == ViaView::AclGroup(g)
                };
            assert(speaks_of(rec, entries[i], p));
        }
    }
    // And every entry that speaks of it applies.
    assert forall|i: int|
        0 <= i < entries.len() && speaks_of(rec, #[trigger] entries[i], p) implies exists|
        k: int,
    |
        0 <= k < list.len() && (#[trigger] list[k]).perms == entries[i].perms by {
        if entries[i].tag is GroupObj {
            assert(own.len() == 1);
            assert(list[0] == own[0]);
            assert(own[0].perms == entries[i].perms);
        } else {
            let k = choose|k: int|
                0 <= k < named.len() && (#[trigger] named[k]).perms == entries[i].perms;
            assert(list[own.len() + k] == named[k]);
        }
    }
}

/// The bits of the group class by the entries that speak of the principal.
proof fn lemma_spoken_bits(
    rec: index::RecordView,
    entries: Seq<acl::EntryView>,
    p: PrincipalView,
    list: Seq<Applying>,
    mask: AclPerms,
)
    requires
        list.len() > 0,
        forall|k: int|
            0 <= k < list.len() ==> exists|i: int|
                {
                    &&& 0 <= i < entries.len()
                    &&& speaks_of(rec, #[trigger] entries[i], p)
                    &&& entries[i].perms == (#[trigger] list[k]).perms
                },
        forall|i: int|
            0 <= i < entries.len() && speaks_of(rec, #[trigger] entries[i], p) ==> exists|k: int|
                0 <= k < list.len() && (#[trigger] list[k]).perms == entries[i].perms,
    ensures
        exists|i: int| 0 <= i < entries.len() && speaks_of(rec, #[trigger] entries[i], p),
        group_class(list, mask).access.read <==> mask.read && exists|i: int|
            0 <= i < entries.len() && speaks_of(rec, #[trigger] entries[i], p)
                && entries[i].perms.read,
        group_class(list, mask).access.write <==> mask.write && exists|i: int|
            0 <= i < entries.len() && speaks_of(rec, #[trigger] entries[i], p)
                && entries[i].perms.write,
        group_class(list, mask).access.execute <==> mask.execute && exists|i: int|
            0 <= i < entries.len() && speaks_of(rec, #[trigger] entries[i], p)
                && entries[i].perms.execute,
{
    lemma_union(list, mask, list.len());
    assert(exists|i: int|
        {
            &&& 0 <= i < entries.len()
            &&& speaks_of(rec, #[trigger] entries[i], p)
            &&& entries[i].perms == list[0].perms
        });
}

/// The precedence of an extended ACL, from the entries alone: the owner by the owner's
/// entry; else a named user by that entry within the mask; else, where an entry of the
/// group class speaks of the principal, the bits that the mask and some such entry have, and
/// a group is credited; else the others' entry. Of two entries of one kind the first counts,
/// the owning group's too.
#[verifier::rlimit(40)]
pub proof fn an_extended_acl_decides_by_precedence(
    rec: index::RecordView,
    entries: Seq<acl::EntryView>,
    p: PrincipalView,
)
    requires
        p.uid != 0,
        rec.acl == Some(entries),
        exists|i: int|
            {
                &&& 0 <= i < entries.len()
                &&& ((#[trigger] entries[i]).tag is User || entries[i].tag is Group
                    || entries[i].tag is Mask)
            },
        // One owning-group entry at most.
        forall|i: int, j: int|
            0 <= i < j < entries.len() ==> !((#[trigger] entries[i]).tag is GroupObj && (
            #[trigger] entries[j]).tag is GroupObj),
    ensures
        ({
            let mask = match perms_for(entries, acl::TagView::Mask) {
                Some(m) => m,
                None => AclPerms { read: true, write: true, execute: true },
            };
            let e = effective_of(rec, p);
            let user = perms_for(entries, acl::TagView::User(p.name));
            let own = perms_for(entries, acl::TagView::UserObj);
            let other = perms_for(entries, acl::TagView::Other);
            let spoken = exists|i: int|
                0 <= i < entries.len() && speaks_of(rec, #[trigger] entries[i], p);
            if p.uid == rec.uid {
                &&& e.via is Owner
                &&& own is Some ==> e.access == own->0
                &&& own is None ==> e.access == mode_bits(rec.mode, 6)
            } else if user is Some {
                &&& e.via == ViaView::AclUser(p.name)
                &&& e.access.read == (user->0.read && mask.read)
                &&& e.access.write == (user->0.write && mask.write)
                &&& e.access.execute == (user->0.execute && mask.execute)
            } else if spoken {
                &&& e.via is Group || e.via is AclGroup
                &&& e.access.read <==> mask.read && exists|i: int|
                    0 <= i < entries.len() && speaks_of(rec, #[trigger] entries[i], p)
                        && entries[i].perms.read
                &&& e.access.write <==> mask.write && exists|i: int|
                    0 <= i < entries.len() && speaks_of(rec, #[trigger] entries[i], p)
                        && entries[i].perms.write
                &&& e.access.execute <==> mask.execute && exists|i: int|
                    0 <= i < entries.len() && speaks_of(rec, #[trigger] entries[i], p)
                        && entries[i].perms.execute
            } else {
                &&& e.via is OtherBits
                &&& other is Some ==> e.access == other->0
                &&& other is None ==> e.access == mode_bits(rec.mode, 0)
            }
        }),
{
    let list = applying(rec, entries, p);
    let mask = mask_of(entries);
    assert(acl::extended(entries));
    assert(effective_of(rec, p) == acl_effective(rec, entries, p));
    if p.uid != rec.uid && perms_for(entries, acl::TagView::User(p.name)) is None {
        lemma_spoken(rec, entries, p);
        if list.len() > 0 {
            lemma_spoken_bits(rec, entries, p, list, mask);
            group_class_never_falls_through(rec, entries, p);
        }
    }
}

/// The place of a group in the list does not matter to the access: two principals that are
/// one user and in the same groups have the same bits.
pub proof fn the_order_of_groups_is_irrelevant(
    rec: index::RecordView,
    p: PrincipalView,
    q: PrincipalView,
)
    requires
        p.name == q.name,
        p.uid == q.uid,
        forall|i: int| 0 <= i < p.groups.len() ==> q.groups.contains(#[trigger] p.groups[i]),
        forall|i: int| 0 <= i < q.groups.len() ==> p.groups.contains(#[trigger] q.groups[i]),
    ensures
        effective_of(rec, p).access == effective_of(rec, q).access,
{
    the_first_group_with_a_gid(p.groups, rec.gid);
    the_first_group_with_a_gid(q.groups, rec.gid);
    assert forall|name: Seq<char>| #[trigger] p.in_group(name) == q.in_group(name) by {
        if p.in_group(name) {
            let i = choose|i: int|
                0 <= i < p.groups.len() && (#[trigger] p.groups[i]).name == name;
            assert(q.groups.contains(p.groups[i]));
            let j = choose|j: int| 0 <= j < q.groups.len() && q.groups[j] == p.groups[i];
            assert(q.groups[j].name == name);
        }
        if q.in_group(name) {
            let i = choose|i: int|
                0 <= i < q.groups.len() && (#[trigger] q.groups[i]).name == name;
            assert(p.groups.contains(q.groups[i]));
            let j = choose|j: int| 0 <= j < p.groups.len() && p.groups[j] == q.groups[i];
            assert(p.groups[j].name == name);
        }
    }
    let gp = group_for_gid(p.groups, rec.gid);
    let gq = group_for_gid(q.groups, rec.gid);
    assert(gp is Some <==> gq is Some) by {
        if gp is Some {
            let i = choose|i: int|
                0 <= i < p.groups.len() && (#[trigger] p.groups[i]).gid == rec.gid;
            assert(q.groups.contains(p.groups[i]));
            let j = choose|j: int| 0 <= j < q.groups.len() && q.groups[j] == p.groups[i];
            assert(q.groups[j].gid == rec.gid);
        }
        if gq is Some {
            let i = choose|i: int|
                0 <= i < q.groups.len() && (#[trigger] q.groups[i]).gid == rec.gid;
            assert(p.groups.contains(q.groups[i]));
            let j = choose|j: int| 0 <= j < p.groups.len() && p.groups[j] == q.groups[i];
            assert(p.groups[j].gid == rec.gid);
        }
    }
    if let Some(entries) = rec.acl {
        lemma_same_named(entries, p, q, entries.len());
        let a = applying(rec, entries, p);
        let b = applying(rec, entries, q);
        let mask = mask_of(entries);
        assert(a.len() == b.len());
        assert forall|i: int| 0 <= i < a.len() implies (#[trigger] a[i]).perms == b[i].perms by {
            let n = owning_group(rec, entries, p).len();
            if i >= n {
                assert(a[i] == named_groups_upto(entries, p, entries.len())[i - n]);
                assert(b[i] == named_groups_upto(entries, q, entries.len())[i - n]);
            }
        }
        lemma_same_union(a, b, mask, a.len());
    }
}

/// The same named groups apply to principals in the same groups.
proof fn lemma_same_named(
    entries: Seq<acl::EntryView>,
    p: PrincipalView,
    q: PrincipalView,
    n: nat,
)
    requires
        n <= entries.len(),
        forall|name: Seq<char>| #[trigger] p.in_group(name) == q.in_group(name),
    ensures
        named_groups_upto(entries, p, n) == named_groups_upto(entries, q, n),
    decreases n,
{
    if n > 0 {
        lemma_same_named(entries, p, q, (n - 1) as nat);
    }
}

/// Entries with the same bits have the same union.
proof fn lemma_same_union(a: Seq<Applying>, b: Seq<Applying>, mask: AclPerms, n: nat)
    requires
        n <= a.len() == b.len(),
        forall|i: int| 0 <= i < a.len() ==> (#[trigger] a[i]).perms == b[i].perms,
    ensures
        union_upto(a, mask, n) == union_upto(b, mask, n),
    decreases n,
{
    if n > 0 {
        lemma_same_union(a, b, mask, (n - 1) as nat);
        assert(a[n - 1].perms == b[n - 1].perms);
    }
}

/// The tokens of the reasons.
pub proof fn reasons_have_their_tokens(name: Seq<char>)
    ensures
        ViaView::Owner.text() == "owner"@,
        ViaView::OtherBits.text() == "other_bits"@,
        ViaView::AclUser(name).text() == "acl_user:"@ + name,
        ViaView::AclGroup(name).text() == "acl_group:"@ + name,
        ViaView::Group(name).text() == "group:"@ + name,
{
}

/// The groups of a resolved account are those that the databases name: a gid is in the list
/// exactly where it is the primary one, or that of a listed group that the group database
/// knows.
proof fn lemma_groups_upto(
    h: HostFacts,
    start: Seq<GroupView>,
    names: Seq<Seq<char>>,
    n: nat,
    gid: u32,
)
    requires
        n <= names.len(),
    ensures
        has_gid(groups_upto(h, start, names, n), gid) <==> has_gid(start, gid) || exists|i: int|
            0 <= i < n && (h.groups.lookup(#[trigger] names[i]) matches Some(f) && f.gid == gid),
        groups_upto(h, start, names, n).len() >= start.len(),
        groups_upto(h, start, names, n).take(start.len() as int) == start,
        forall|k: int|
            start.len() <= k < groups_upto(h, start, names, n).len() ==> {
                let g = #[trigger] groups_upto(h, start, names, n)[k];
                exists|i: int|
                    0 <= i < n && #[trigger] names[i] == g.name
                        && (h.groups.lookup(names[i]) matches Some(
                        f,
                    ) && f.gid == g.gid)
            },
    decreases n,
{
    if n == 0 {
        assert(start.take(start.len() as int) =~= start);
    } else {
        lemma_groups_upto(h, start, names, (n - 1) as nat, gid);
        let before = groups_upto(h, start, names, (n - 1) as nat);
        let now = groups_upto(h, start, names, n);
        assert(now.take(start.len() as int) =~= before.take(start.len() as int));
        if has_gid(before, gid) {
            let k = choose|k: int| 0 <= k < before.len() && (#[trigger] before[k]).gid == gid;
            assert(now[k] == before[k]);
        }
        if has_gid(now, gid) {
            let k = choose|k: int| 0 <= k < now.len() && (#[trigger] now[k]).gid == gid;
            if k < before.len() {
                assert(before[k].gid == gid);
            } else {
                assert(h.groups.lookup(names[n - 1]) is Some);
            }
        }
        if let Some(f) = h.groups.lookup(names[n - 1]) {
            if f.gid == gid && !has_gid(before, gid) {
                assert(now[before.len() as int].gid == gid);
            }
        }
        if exists|i: int|
            0 <= i < n && (h.groups.lookup(#[trigger] names[i]) matches Some(f) && f.gid == gid) {
            let i = choose|i: int|
                0 <= i < n && (h.groups.lookup(#[trigger] names[i]) matches Some(f) && f.gid
                    == gid);
            if i < n - 1 {
                assert(has_gid(before, gid));
            }
            assert(has_gid(now, gid));
        }
        assert forall|k: int| start.len() <= k < now.len() implies {
            let g = #[trigger] now[k];
            exists|i: int|
                0 <= i < n && #[trigger] names[i] == g.name
                    && (h.groups.lookup(names[i]) matches Some(
                    f,
                ) && f.gid == g.gid)
        } by {
            if k < before.len() {
                assert(now[k] == before[k]);
                let i = choose|i: int|
                    0 <= i < n - 1 && #[trigger] names[i] == before[k].name && (h.groups.lookup(
                        names[i],
                    ) matches Some(f) && f.gid == before[k].gid);
                assert(names[i] == now[k].name);
            } else {
                assert(names[n - 1] == now[k].name);
            }
        }
    }
}

/// Who a login name or a number is. A number that is some account's uid is that account; a
/// number without one is that uid alone; anything else is the account of that name, or
/// nobody.
pub proof fn principals_are_resolved(h: HostFacts, name_or_uid: Seq<char>, name: Seq<char>)
    requires
        match text::u32_of(name_or_uid) {
            Some(uid) => match inspect::name_with_uid(h.accounts.seq(), uid) {
                Some(n) => name == n,
                None => name == name_or_uid,
            },
            None => name == name_or_uid,
        },
    ensures
        match h.accounts.lookup(name) {
            Some(account) => principal_of(h, name_or_uid) == Some(
                account_principal(h, name, account),
            ),
            None => match text::u32_of(name_or_uid) {
                None => principal_of(h, name_or_uid) is None,
                Some(uid) => principal_of(h, name_or_uid) == Some(
                    PrincipalView {
                        name: text::decimal(uid as nat),
                        uid,
                        groups: seq![],
                        home: None,
                    },
                ),
            },
        },
{
}

/// What an account is. It has its own name, uid and home. It is in its primary group first,
/// by the name that the gid is known by or by its number, and then in every listed group
/// that the group database knows, and in no other.
pub proof fn accounts_are_in_their_groups(
    h: HostFacts,
    name: Seq<char>,
    account: AccountFacts,
    gid: u32,
)
    ensures
        account_principal(h, name, account).name == name,
        account_principal(h, name, account).uid == account.uid,
        account_principal(h, name, account).home == Some(account.home@),
        (exists|k: int|
            0 <= k < account_principal(h, name, account).groups.len() && (
            #[trigger] account_principal(h, name, account).groups[k]).gid == gid) <==> (
        h.primary_gids.lookup(name) == Some(gid) || exists|i: int|
            0 <= i < account.groups@.len() && (h.groups.lookup(
                (#[trigger] text::views(account.groups@)[i]),
            ) matches Some(f) && f.gid == gid)),
        h.primary_gids.lookup(name) matches Some(first) ==> {
            &&& account_principal(h, name, account).groups.len() > 0
            &&& account_principal(h, name, account).groups[0].gid == first
            &&& account_principal(h, name, account).groups[0].name == (
            match inspect::name_with_gid(h.groups.seq(), first) {
                Some(n) => n,
                None => text::decimal(first as nat),
            })
        },
        forall|k: int|
            0 <= k < account_principal(h, name, account).groups.len() && (k > 0
                || h.primary_gids.lookup(name) is None) ==> {
                let g = #[trigger] account_principal(h, name, account).groups[k];
                exists|i: int|
                    0 <= i < account.groups@.len() && #[trigger] text::views(account.groups@)[i]
                        == g.name && (h.groups.lookup(g.name) matches Some(f) && f.gid == g.gid)
            },
{
    let start = primary_group(h, name);
    let listed = text::views(account.groups@);
    lemma_groups_upto(h, start, listed, listed.len(), gid);
    let groups = account_principal(h, name, account).groups;
    assert(groups == groups_upto(h, start, listed, listed.len()));
    assert(has_gid(groups, gid) <==> exists|k: int|
        0 <= k < groups.len() && (#[trigger] groups[k]).gid == gid);
    if let Some(first) = h.primary_gids.lookup(name) {
        assert(groups.take(1)[0] == start[0]);
        if first == gid {
            assert(start[0].gid == gid);
        }
    }
}

} // verus!
