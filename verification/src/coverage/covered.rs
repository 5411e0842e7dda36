//! The covered set: the concrete primitives that the catalog and the roles grant.
//!
//! Only the binary that is granted lands in the set, never what it can reach, so a
//! transitive escape fabricates no coverage.

use vstd::hash_set::StringHashSet;
use vstd::prelude::*;

use crate::catalog;
use crate::catalog::{ResolvedFileGrant, Shape};
use crate::coverage;
use crate::coverage::{CatalogEntry, ResolvedRole};
use crate::text;

verus! {

broadcast use vstd::string::group_string_axioms;

/// The permission that covers every unit.
pub const SERVICE_ADMIN_ID: &'static str = "service-admin";

/// The permission that covers every capability-bearing file.
pub const CAPABILITY_ADMIN_ID: &'static str = "capability-admin";

/// Subcommands of `systemctl` that are never a unit name.
pub const SYSTEMCTL_VERBS: [&'static str; 9] = [
    "start",
    "stop",
    "restart",
    "status",
    "is-active",
    "reset-failed",
    "enable",
    "disable",
    "daemon-reload",
];

// ---------------------------------------------------------------------------
// Commands
// ---------------------------------------------------------------------------

/// Whether `s` carries a `{placeholder}`: a closing brace after its first opening one.
pub open spec fn templated(s: Seq<char>) -> bool {
    let i = text::index_of(s, '{') as int;
    i < s.len() && s.skip(i + 1).contains('}')
}

/// The binary that a command of a role makes reachable: its first word. Arguments only
/// narrow what the binary may do.
pub open spec fn binary_of(command: Seq<char>) -> Option<Seq<char>> {
    text::first_word(command)
}

/// The binary that a templated command starts with, where that word has no placeholder
/// in it.
pub open spec fn static_prefix(command: Seq<char>) -> Option<Seq<char>> {
    match binary_of(command) {
        Some(word) => if word.contains('{') {
            None
        } else {
            Some(word)
        },
        None => None,
    }
}

/// The binary that a command of a catalog permission makes reachable. A templated
/// command covers what it starts with, or, under `strict`, nothing.
pub open spec fn catalog_binary(command: Seq<char>, strict: bool) -> Option<Seq<char>> {
    if !templated(command) {
        binary_of(command)
    } else if strict {
        None
    } else {
        static_prefix(command)
    }
}

/// The unit that a `systemctl` command names: its last word, where that is neither the
/// command itself nor an option nor a subcommand.
pub open spec fn unit_of(command: Seq<char>) -> Option<Seq<char>> {
    let words = text::words(command);
    if words.len() == 0 {
        None
    } else {
        let bin = words[0];
        let last = words.last();
        if !text::ends_with(bin, "/systemctl"@) && bin != "systemctl"@ {
            None
        } else if last == bin || text::starts_with(last, "-"@) || text::listed(
            text::str_views(SYSTEMCTL_VERBS@),
            last,
        ) {
            None
        } else {
            Some(last)
        }
    }
}

/// A unit name without `.service` at its end.
pub open spec fn unit_base(unit: Seq<char>) -> Seq<char> {
    text::without_suffix(unit, ".service"@)
}

/// Whether `u` is one of the two forms of the unit that `command` names.
pub open spec fn names_unit(command: Seq<char>, u: Seq<char>) -> bool {
    match unit_of(command) {
        Some(unit) => u == unit_base(unit) || u == unit_base(unit) + ".service"@,
        None => false,
    }
}

/// Whether some command of a catalog permission makes `bin` reachable.
pub open spec fn commands_reach(commands: Seq<Seq<char>>, strict: bool, bin: Seq<char>) -> bool
    decreases commands.len(),
{
    commands.len() > 0 && (commands_reach(commands.drop_last(), strict, bin) || catalog_binary(
        commands.last(),
        strict,
    ) == Some(bin))
}

/// Whether some command of a role makes `bin` reachable.
pub open spec fn role_commands_reach(commands: Seq<Seq<char>>, bin: Seq<char>) -> bool
    decreases commands.len(),
{
    commands.len() > 0 && (role_commands_reach(commands.drop_last(), bin) || binary_of(
        commands.last(),
    ) == Some(bin))
}

/// Whether some command of a role names the unit `u`.
pub open spec fn role_commands_name(commands: Seq<Seq<char>>, u: Seq<char>) -> bool
    decreases commands.len(),
{
    commands.len() > 0 && (role_commands_name(commands.drop_last(), u) || names_unit(
        commands.last(),
        u,
    ))
}

// ---------------------------------------------------------------------------
// The catalog and the roles
// ---------------------------------------------------------------------------

/// Whether some definition has this id.
pub open spec fn defines(entries: Seq<coverage::EntryView>, id: Seq<char>) -> bool
    decreases entries.len(),
{
    entries.len() > 0 && (defines(entries.drop_last(), id) || entries.last().id == id)
}

/// What the last definition adds: its expansion, where its permission resolves and was
/// not listed before.
pub open spec fn added(entries: Seq<coverage::EntryView>) -> Option<coverage::ExpansionView> {
    let e = entries.last();
    if defines(entries.drop_last(), e.id) {
        None
    } else {
        match e.resolved {
            Ok(p) => Some(p),
            Err(_) => None,
        }
    }
}

/// Whether the permission `id` is listed and resolves.
pub open spec fn grants_id(entries: Seq<coverage::EntryView>, id: Seq<char>) -> bool
    decreases entries.len(),
{
    entries.len() > 0 && (grants_id(entries.drop_last(), id) || (added(entries) is Some
        && entries.last().id == id))
}

/// Whether the catalog makes `bin` reachable.
pub open spec fn catalog_reaches(
    entries: Seq<coverage::EntryView>,
    strict: bool,
    bin: Seq<char>,
) -> bool
    decreases entries.len(),
{
    entries.len() > 0 && (catalog_reaches(entries.drop_last(), strict, bin) || (
    added(entries) is Some && commands_reach(added(entries)->0.sudo, strict, bin)))
}

/// Whether the catalog hands out membership in `group`.
pub open spec fn catalog_joins(entries: Seq<coverage::EntryView>, group: Seq<char>) -> bool
    decreases entries.len(),
{
    entries.len() > 0 && (catalog_joins(entries.drop_last(), group) || (added(entries) is Some
        && text::listed(added(entries)->0.groups, group)))
}

/// The grants of the list whose path has no placeholder.
pub open spec fn concrete(grants: Seq<catalog::GrantView>) -> Seq<catalog::GrantView>
    decreases grants.len(),
{
    if grants.len() == 0 {
        seq![]
    } else {
        let before = concrete(grants.drop_last());
        if templated(grants.last().path) {
            before
        } else {
            before.push(grants.last())
        }
    }
}

/// The concrete file grants of the catalog, in order.
pub open spec fn catalog_grants(entries: Seq<coverage::EntryView>) -> Seq<catalog::GrantView>
    decreases entries.len(),
{
    if entries.len() == 0 {
        seq![]
    } else {
        let before = catalog_grants(entries.drop_last());
        match added(entries) {
            Some(p) => before + concrete(p.file_grants),
            None => before,
        }
    }
}

/// The warnings about permissions that do not resolve, in order.
pub open spec fn unresolved(entries: Seq<coverage::EntryView>) -> Seq<Seq<char>>
    decreases entries.len(),
{
    if entries.len() == 0 {
        seq![]
    } else {
        let before = unresolved(entries.drop_last());
        let e = entries.last();
        match e.resolved {
            Err(reason) => if defines(entries.drop_last(), e.id) {
                before
            } else {
                before.push("catalog permission "@ + e.id + " unresolved: "@ + reason)
            },
            Ok(_) => before,
        }
    }
}

/// Whether some role makes `bin` reachable.
pub open spec fn roles_reach(roles: Seq<coverage::ExpansionView>, bin: Seq<char>) -> bool
    decreases roles.len(),
{
    roles.len() > 0 && (roles_reach(roles.drop_last(), bin) || role_commands_reach(
        roles.last().sudo,
        bin,
    ))
}

/// Whether some role hands out membership in `group`.
pub open spec fn roles_join(roles: Seq<coverage::ExpansionView>, group: Seq<char>) -> bool
    decreases roles.len(),
{
    roles.len() > 0 && (roles_join(roles.drop_last(), group) || text::listed(
        roles.last().groups,
        group,
    ))
}

/// Whether some role names the unit `u`.
pub open spec fn roles_name(roles: Seq<coverage::ExpansionView>, u: Seq<char>) -> bool
    decreases roles.len(),
{
    roles.len() > 0 && (roles_name(roles.drop_last(), u) || role_commands_name(
        roles.last().sudo,
        u,
    ))
}

/// The file grants of the roles, in order.
pub open spec fn role_grants(roles: Seq<coverage::ExpansionView>) -> Seq<catalog::GrantView>
    decreases roles.len(),
{
    if roles.len() == 0 {
        seq![]
    } else {
        role_grants(roles.drop_last()) + roles.last().file_grants
    }
}

// ---------------------------------------------------------------------------
// Grants on one path
// ---------------------------------------------------------------------------

/// The place of the first grant on `path`, or the length of the list.
pub open spec fn grant_place(grants: Seq<catalog::GrantView>, path: Seq<char>) -> nat
    decreases grants.len(),
{
    if grants.len() == 0 || grants[0].path == path {
        0
    } else {
        1 + grant_place(grants.skip(1), path)
    }
}

/// What two grants on one path add up to. A path that is granted recursively is a
/// directory.
pub open spec fn grant_union(a: catalog::GrantView, b: catalog::GrantView) -> catalog::GrantView {
    catalog::GrantView {
        path: a.path,
        access: a.access.joined(b.access),
        recursive: a.recursive || b.recursive,
        shape: if a.recursive || b.recursive {
            Shape::Dir
        } else {
            a.shape
        },
    }
}

/// The list with one more grant folded in.
pub open spec fn fold_grant(
    grants: Seq<catalog::GrantView>,
    g: catalog::GrantView,
) -> Seq<catalog::GrantView> {
    let i = grant_place(grants, g.path) as int;
    if i < grants.len() {
        grants.update(i, grant_union(grants[i], g))
    } else {
        grants.push(g)
    }
}

/// The grants with those on one path folded together, in order of first mention.
pub open spec fn folded(grants: Seq<catalog::GrantView>) -> Seq<catalog::GrantView>
    decreases grants.len(),
{
    if grants.len() == 0 {
        seq![]
    } else {
        fold_grant(folded(grants.drop_last()), grants.last())
    }
}

/// The contents of a covered set.
#[verifier::ext_equal]
pub struct CoveredView {
    /// The binaries that some sudo command reaches.
    pub sudo_binaries: Set<Seq<char>>,
    /// The groups that are handed out.
    pub groups: Set<Seq<char>>,
    /// The units that are named, in both forms.
    pub units: Set<Seq<char>>,
    /// Whether every unit is covered.
    pub service_admin: bool,
    /// Whether every capability-bearing file is covered.
    pub capability_admin: bool,
    /// The file grants.
    pub file_grants: Seq<catalog::GrantView>,
}

/// What the catalog, the roles and the bound groups cover.
pub open spec fn covered_by(
    entries: Seq<coverage::EntryView>,
    roles: Seq<coverage::ExpansionView>,
    strict: bool,
    bound: Seq<Seq<char>>,
) -> CoveredView {
    CoveredView {
        sudo_binaries: Set::new(
            |b: Seq<char>| catalog_reaches(entries, strict, b) || roles_reach(roles, b),
        ),
        groups: Set::new(
            |g: Seq<char>|
                catalog_joins(entries, g) || roles_join(roles, g) || text::listed(bound, g),
        ),
        units: Set::new(|u: Seq<char>| roles_name(roles, u)),
        service_admin: grants_id(entries, SERVICE_ADMIN_ID@),
        capability_admin: grants_id(entries, CAPABILITY_ADMIN_ID@),
        file_grants: folded(catalog_grants(entries) + role_grants(roles)),
    }
}

// ---------------------------------------------------------------------------
// Reading commands
// ---------------------------------------------------------------------------

/// The first word of a command: the binary.
pub fn sudo_binary_token(command: &str) -> (r: Option<String>)
    ensures
        match r {
            Some(w) => binary_of(command@) == Some(w@),
            None => binary_of(command@) is None,
        },
{
    let cs = text::chars_of(command);
    let words = text::split_words(cs.as_slice());
    proof {
        assert(text::slices(words@).len() == words@.len());
    }
    if words.len() == 0 {
        return None;
    }
    proof {
        assert(text::slices(words@)[0] == words@[0]@);
    }
    Some(text::string_of(words[0]))
}

/// Whether `c` occurs in `s`.
fn has_char(s: &str, c: char) -> (r: bool)
    ensures
        r == s@.contains(c),
{
    let cs = text::chars_of(s);
    let k = text::find_char(cs.as_slice(), c);
    proof {
        if k < cs@.len() {
            assert(s@[k as int] == c);
        }
    }
    k < cs.len()
}

/// Whether `s` carries a `{placeholder}`.
pub fn has_placeholder(s: &str) -> (r: bool)
    ensures
        r == templated(s@),
{
    let cs = text::chars_of(s);
    let n = cs.len();
    let k = text::find_char(cs.as_slice(), '{');
    if k >= n {
        return false;
    }
    let rest = &cs.as_slice()[k + 1..n];
    let m = text::find_char(rest, '}');
    proof {
        assert(rest@ =~= s@.skip(k + 1));
        if m < rest@.len() {
            assert(s@.skip(k + 1)[m as int] == '}');
        }
    }
    m < rest.len()
}

/// The binary that a templated command starts with.
pub fn static_binary_prefix(command: &str) -> (r: Option<String>)
    ensures
        match r {
            Some(w) => static_prefix(command@) == Some(w@),
            None => static_prefix(command@) is None,
        },
{
    match sudo_binary_token(command) {
        Some(w) => if has_char(&w, '{') {
            None
        } else {
            Some(w)
        },
        None => None,
    }
}

/// The binary that a command of a catalog permission makes reachable.
fn catalog_binary_token(command: &str, strict: bool) -> (r: Option<String>)
    ensures
        match r {
            Some(w) => catalog_binary(command@, strict) == Some(w@),
            None => catalog_binary(command@, strict) is None,
        },
{
    if !has_placeholder(command) {
        sudo_binary_token(command)
    } else if strict {
        None
    } else {
        static_binary_prefix(command)
    }
}

/// Whether `token` is a `systemctl` subcommand.
pub fn is_systemctl_verb(token: &str) -> (r: bool)
    ensures
        r == text::listed(text::str_views(SYSTEMCTL_VERBS@), token@),
{
    text::in_words(&SYSTEMCTL_VERBS, token)
}

/// The unit that a `systemctl` command names.
pub fn service_restart_unit(command: &str) -> (r: Option<String>)
    ensures
        match r {
            Some(u) => unit_of(command@) == Some(u@),
            None => unit_of(command@) is None,
        },
{
    let cs = text::chars_of(command);
    let words = text::split_words(cs.as_slice());
    let ghost all = text::slices(words@);
    proof {
        assert(all.len() == words@.len());
    }
    if words.len() == 0 {
        return None;
    }
    let bin = words[0];
    let last = words[words.len() - 1];
    proof {
        assert(all[0] == bin@);
        assert(all.last() == last@);
    }
    if !text::has_suffix(bin, "/systemctl") && !text::is_text(bin, "systemctl") {
        return None;
    }
    if text::same_chars(last, bin) || text::has_prefix(last, "-") {
        return None;
    }
    let unit = text::string_of(last);
    if is_systemctl_verb(&unit) {
        return None;
    }
    Some(unit)
}

/// A unit name without `.service` at its end.
pub fn unit_stem(unit: &str) -> (r: String)
    ensures
        r@ == unit_base(unit@),
{
    let cs = text::chars_of(unit);
    if text::has_suffix(cs.as_slice(), ".service") {
        proof {
            reveal_strlit(".service");
        }
        let n = cs.len();
        text::string_of(&cs.as_slice()[0..n - 8])
    } else {
        unit.to_owned()
    }
}

/// Record both forms of a named unit.
pub fn fold_unit_forms(unit: &str, units: &mut StringHashSet)
    ensures
        final(units)@ == old(units)@.insert(unit_base(unit@)).insert(
            unit_base(unit@) + ".service"@,
        ),
{
    let base = unit_stem(unit);
    let long = text::join2(&base, ".service");
    units.insert(base);
    units.insert(long);
}

// ---------------------------------------------------------------------------
// Building the set
// ---------------------------------------------------------------------------

/// The set of expanded primitives that surface objects are matched against.
pub struct CoveredSet {
    /// The binaries that some sudo command reaches.
    pub sudo_binaries: StringHashSet,
    /// The groups that are handed out.
    pub groups: StringHashSet,
    /// The units that are named, in both forms.
    pub units: StringHashSet,
    /// Whether every unit is covered.
    pub has_service_admin: bool,
    /// Whether every capability-bearing file is covered.
    pub has_capability_admin: bool,
    /// The file grants.
    pub file_grants: Vec<ResolvedFileGrant>,
}

impl View for CoveredSet {
    type V = CoveredView;

    open spec fn view(&self) -> CoveredView {
        CoveredView {
            sudo_binaries: self.sudo_binaries@,
            groups: self.groups@,
            units: self.units@,
            service_admin: self.has_service_admin,
            capability_admin: self.has_capability_admin,
            file_grants: catalog::grant_views(self.file_grants@),
        }
    }
}

/// Where a run of grants on other paths ends at a grant on `path`, or at the end, that
/// is its place.
proof fn lemma_grant_place(grants: Seq<catalog::GrantView>, path: Seq<char>, k: int)
    requires
        0 <= k <= grants.len(),
        forall|j: int| 0 <= j < k ==> (#[trigger] grants[j]).path != path,
        k < grants.len() ==> grants[k].path == path,
    ensures
        grant_place(grants, path) == k,
    decreases k,
{
    if k > 0 {
        lemma_grant_place(grants.skip(1), path, k - 1);
    }
}

/// Fold a file grant into the list, by path. Two grants on one path add up.
pub fn push_unique_grant(acc: &mut Vec<ResolvedFileGrant>, grant: ResolvedFileGrant)
    ensures
        catalog::grant_views(final(acc)@) == fold_grant(
            catalog::grant_views(old(acc)@),
            grant@,
        ),
{
    let ghost was = catalog::grant_views(acc@);
    let ghost g = grant@;
    let mut i: usize = 0;
    while i < acc.len() && !text::same(&acc[i].path, &grant.path)
        invariant
            was == catalog::grant_views(acc@),
            g == grant@,
            i <= acc@.len(),
            forall|j: int| 0 <= j < i ==> (#[trigger] was[j]).path != g.path,
        decreases acc@.len() - i,
    {
        i += 1;
    }
    proof {
        lemma_grant_place(was, g.path, i as int);
    }
    if i < acc.len() {
        let old_grant = &acc[i];
        let recursive = old_grant.recursive || grant.recursive;
        let shape = if recursive {
            Shape::Dir
        } else {
            old_grant.shape
        };
        let merged = ResolvedFileGrant {
            path: old_grant.path.clone(),
            access: old_grant.access.union(grant.access),
            recursive,
            shape,
        };
        let ghost m = merged@;
        proof {
            assert(m == grant_union(was[i as int], g));
        }
        acc.set(i, merged);
        proof {
            assert(catalog::grant_views(acc@) =~= was.update(i as int, m));
        }
    } else {
        acc.push(grant);
        proof {
            assert(catalog::grant_views(acc@) =~= was.push(g));
        }
    }
}

/// Insert every name of a list.
fn insert_names(set: &mut StringHashSet, names: &[String])
    ensures
        forall|t: Seq<char>| #[trigger]
            final(set)@.contains(t) <==> old(set)@.contains(t) || text::listed(
                text::views(names@),
                t,
            ),
{
    let ghost was = set@;
    let ghost all = text::views(names@);
    let mut i: usize = 0;
    while i < names.len()
        invariant
            all == text::views(names@),
            was == old(set)@,
            i <= names@.len(),
            forall|t: Seq<char>| #[trigger]
                set@.contains(t) <==> was.contains(t) || text::listed(all.take(i as int), t),
        decreases names@.len() - i,
    {
        set.insert(names[i].clone());
        proof {
            assert forall|t: Seq<char>| #[trigger] set@.contains(t) <==> was.contains(t)
                || text::listed(all.take(i + 1), t) by {
                text::lemma_listed_step(all, i as int, t);
            }
        }
        i += 1;
    }
    proof {
        assert(all.take(i as int) =~= all);
    }
}

/// Insert the binary of every command of a catalog permission.
fn insert_catalog_binaries(set: &mut StringHashSet, commands: &[String], strict: bool)
    ensures
        forall|b: Seq<char>| #[trigger]
            final(set)@.contains(b) <==> old(set)@.contains(b) || commands_reach(
                text::views(commands@),
                strict,
                b,
            ),
{
    let ghost was = set@;
    let ghost all = text::views(commands@);
    let mut i: usize = 0;
    while i < commands.len()
        invariant
            all == text::views(commands@),
            was == old(set)@,
            i <= commands@.len(),
            forall|b: Seq<char>| #[trigger]
                set@.contains(b) <==> was.contains(b) || commands_reach(
                    all.take(i as int),
                    strict,
                    b,
                ),
        decreases commands@.len() - i,
    {
        proof {
            assert(all.take(i + 1).drop_last() =~= all.take(i as int));
            assert(all.take(i + 1).last() == commands@[i as int]@);
        }
        match catalog_binary_token(&commands[i], strict) {
            Some(bin) => {
                set.insert(bin);
            },
            None => {},
        }
        i += 1;
    }
    proof {
        assert(all.take(i as int) =~= all);
    }
}

/// Insert the binary, and both forms of the unit, of every command of a role.
fn insert_role_commands(
    binaries: &mut StringHashSet,
    units: &mut StringHashSet,
    commands: &[String],
)
    ensures
        forall|b: Seq<char>| #[trigger]
            final(binaries)@.contains(b) <==> old(binaries)@.contains(b) || role_commands_reach(
                text::views(commands@),
                b,
            ),
        forall|u: Seq<char>| #[trigger]
            final(units)@.contains(u) <==> old(units)@.contains(u) || role_commands_name(
                text::views(commands@),
                u,
            ),
{
    let ghost was = binaries@;
    let ghost named = units@;
    let ghost all = text::views(commands@);
    let mut i: usize = 0;
    while i < commands.len()
        invariant
            all == text::views(commands@),
            was == old(binaries)@,
            named == old(units)@,
            i <= commands@.len(),
            forall|b: Seq<char>| #[trigger]
                binaries@.contains(b) <==> was.contains(b) || role_commands_reach(
                    all.take(i as int),
                    b,
                ),
            forall|u: Seq<char>| #[trigger]
                units@.contains(u) <==> named.contains(u) || role_commands_name(
                    all.take(i as int),
                    u,
                ),
        decreases commands@.len() - i,
    {
        proof {
            assert(all.take(i + 1).drop_last() =~= all.take(i as int));
            assert(all.take(i + 1).last() == commands@[i as int]@);
        }
        match sudo_binary_token(&commands[i]) {
            Some(bin) => {
                binaries.insert(bin);
            },
            None => {},
        }
        match service_restart_unit(&commands[i]) {
            Some(unit) => {
                fold_unit_forms(&unit, units);
            },
            None => {},
        }
        i += 1;
    }
    proof {
        assert(all.take(i as int) =~= all);
    }
}

/// Fold in the grants of a list. With `concrete_only`, a templated path is left out.
fn fold_grants(
    acc: &mut Vec<ResolvedFileGrant>,
    grants: &[ResolvedFileGrant],
    concrete_only: bool,
    so_far: Ghost<Seq<catalog::GrantView>>,
)
    requires
        catalog::grant_views(old(acc)@) == folded(so_far@),
    ensures
        catalog::grant_views(final(acc)@) == folded(
            so_far@ + if concrete_only {
                concrete(catalog::grant_views(grants@))
            } else {
                catalog::grant_views(grants@)
            },
        ),
{
    let ghost all = catalog::grant_views(grants@);
    let ghost mut added: Seq<catalog::GrantView> = seq![];
    let mut i: usize = 0;
    proof {
        assert(so_far@ + added =~= so_far@);
        assert(all.take(0) =~= Seq::<catalog::GrantView>::empty());
    }
    while i < grants.len()
        invariant
            all == catalog::grant_views(grants@),
            i <= grants@.len(),
            added == if concrete_only {
                concrete(all.take(i as int))
            } else {
                all.take(i as int)
            },
            catalog::grant_views(acc@) == folded(so_far@ + added),
        decreases grants@.len() - i,
    {
        let g = &grants[i];
        proof {
            assert(all.take(i + 1).drop_last() =~= all.take(i as int));
            assert(all.take(i + 1).last() == g@);
            assert(all.take(i + 1) =~= all.take(i as int).push(g@));
        }
        if !concrete_only || !has_placeholder(&g.path) {
            push_unique_grant(acc, g.clone());
            proof {
                let more = so_far@ + added.push(g@);
                assert(more.drop_last() =~= so_far@ + added);
                assert(more.last() == g@);
                added = added.push(g@);
            }
        }
        i += 1;
    }
    proof {
        assert(all.take(i as int) =~= all);
    }
}

/// The set of what the catalog covers, and the warnings about what does not resolve.
fn cover_catalog(entries: &[CatalogEntry], strict: bool) -> (r: (CoveredSet, Vec<String>))
    ensures
        forall|b: Seq<char>| #[trigger]
            r.0.sudo_binaries@.contains(b) <==> catalog_reaches(
                coverage::entry_views(entries@),
                strict,
                b,
            ),
        forall|g: Seq<char>| #[trigger]
            r.0.groups@.contains(g) <==> catalog_joins(coverage::entry_views(entries@), g),
        r.0.units@ == Set::<Seq<char>>::empty(),
        r.0.has_service_admin == grants_id(coverage::entry_views(entries@), SERVICE_ADMIN_ID@),
        r.0.has_capability_admin == grants_id(
            coverage::entry_views(entries@),
            CAPABILITY_ADMIN_ID@,
        ),
        catalog::grant_views(r.0.file_grants@) == folded(
            catalog_grants(coverage::entry_views(entries@)),
        ),
        text::views(r.1@) == unresolved(coverage::entry_views(entries@)),
{
    let ghost all = coverage::entry_views(entries@);
    let mut sudo_binaries = StringHashSet::new();
    let mut groups = StringHashSet::new();
    let mut has_service_admin = false;
    let mut has_capability_admin = false;
    let mut file_grants: Vec<ResolvedFileGrant> = Vec::new();
    let mut warnings: Vec<String> = Vec::new();
    let mut seen = StringHashSet::new();
    let mut i: usize = 0;
    proof {
        assert(catalog::grant_views(file_grants@) =~= folded(catalog_grants(all.take(0))));
        assert(text::views(warnings@) =~= unresolved(all.take(0)));
    }
    while i < entries.len()
        invariant
            all == coverage::entry_views(entries@),
            i <= entries@.len(),
            forall|id: Seq<char>| #[trigger]
                seen@.contains(id) <==> defines(all.take(i as int), id),
            forall|b: Seq<char>| #[trigger]
                sudo_binaries@.contains(b) <==> catalog_reaches(all.take(i as int), strict, b),
            forall|g: Seq<char>| #[trigger]
                groups@.contains(g) <==> catalog_joins(all.take(i as int), g),
            has_service_admin == grants_id(all.take(i as int), SERVICE_ADMIN_ID@),
            has_capability_admin == grants_id(all.take(i as int), CAPABILITY_ADMIN_ID@),
            catalog::grant_views(file_grants@) == folded(catalog_grants(all.take(i as int))),
            text::views(warnings@) == unresolved(all.take(i as int)),
        decreases entries@.len() - i,
    {
        let entry = &entries[i];
        let ghost before = all.take(i as int);
        let ghost now = all.take(i + 1);
        proof {
            assert(now.drop_last() =~= before);
            assert(now.last() == entry@);
        }
        if !seen.contains(&entry.id) {
            seen.insert(entry.id.clone());
            match &entry.resolved {
                Ok(p) => {
                    proof {
                        assert(added(now) == Some(p@));
                    }
                    if text::same(&entry.id, SERVICE_ADMIN_ID) {
                        has_service_admin = true;
                    }
                    if text::same(&entry.id, CAPABILITY_ADMIN_ID) {
                        has_capability_admin = true;
                    }
                    insert_catalog_binaries(&mut sudo_binaries, p.sudo.as_slice(), strict);
                    insert_names(&mut groups, p.groups.as_slice());
                    fold_grants(
                        &mut file_grants,
                        p.file_grants.as_slice(),
                        true,
                        Ghost(catalog_grants(before)),
                    );
                },
                Err(e) => {
                    proof {
                        assert(added(now) is None);
                    }
                    let mut w = text::join3("catalog permission ", &entry.id, " unresolved: ");
                    w.append(e);
                    let ghost one = w@;
                    let ghost was = text::views(warnings@);
                    warnings.push(w);
                    proof {
                        assert(one == "catalog permission "@ + entry.id@ + " unresolved: "@ + e@);
                        assert(text::views(warnings@) =~= was.push(one));
                    }
                },
            }
        } else {
            proof {
                assert(added(now) is None);
            }
        }
        i += 1;
    }
    proof {
        assert(all.take(i as int) =~= all);
    }
    let units = StringHashSet::new();
    (
        CoveredSet {
            sudo_binaries,
            groups,
            units,
            has_service_admin,
            has_capability_admin,
            file_grants,
        },
        warnings,
    )
}

/// Build the covered set from the resolved catalog, the roles and the bound groups.
///
/// A permission listed more than once counts once. One that does not resolve covers
/// nothing, is named in the warnings, and leaves the rest untouched.
pub fn build_covered_set(
    entries: &[CatalogEntry],
    roles: &[ResolvedRole],
    strict: bool,
    bound_grant_groups: &[String],
) -> (r: (CoveredSet, Vec<String>))
    ensures
        r.0@ == covered_by(
            coverage::entry_views(entries@),
            coverage::role_views(roles@),
            strict,
            text::views(bound_grant_groups@),
        ),
        text::views(r.1@) == unresolved(coverage::entry_views(entries@)),
{
    let ghost defs = coverage::entry_views(entries@);
    let ghost all = coverage::role_views(roles@);
    let (set, warnings) = cover_catalog(entries, strict);
    let mut sudo_binaries = set.sudo_binaries;
    let mut groups = set.groups;
    let mut units = set.units;
    let mut file_grants = set.file_grants;
    let mut i: usize = 0;
    proof {
        assert(catalog_grants(defs) + role_grants(all.take(0)) =~= catalog_grants(defs));
    }
    while i < roles.len()
        invariant
            all == coverage::role_views(roles@),
            i <= roles@.len(),
            forall|b: Seq<char>| #[trigger]
                sudo_binaries@.contains(b) <==> catalog_reaches(defs, strict, b) || roles_reach(
                    all.take(i as int),
                    b,
                ),
            forall|g: Seq<char>| #[trigger]
                groups@.contains(g) <==> catalog_joins(defs, g) || roles_join(
                    all.take(i as int),
                    g,
                ),
            forall|u: Seq<char>| #[trigger]
                units@.contains(u) <==> roles_name(all.take(i as int), u),
            catalog::grant_views(file_grants@) == folded(
                catalog_grants(defs) + role_grants(all.take(i as int)),
            ),
        decreases roles@.len() - i,
    {
        let role = &roles[i];
        proof {
            assert(all.take(i + 1).drop_last() =~= all.take(i as int));
            assert(all.take(i + 1).last() == role@);
        }
        insert_role_commands(&mut sudo_binaries, &mut units, role.sudo.as_slice());
        insert_names(&mut groups, role.groups.as_slice());
        fold_grants(
            &mut file_grants,
            role.file_grants.as_slice(),
            false,
            Ghost(catalog_grants(defs) + role_grants(all.take(i as int))),
        );
        proof {
            assert(catalog_grants(defs) + role_grants(all.take(i as int))
                + catalog::grant_views(role.file_grants@) =~= catalog_grants(defs) + role_grants(
                all.take(i + 1),
            ));
        }
        i += 1;
    }
    insert_names(&mut groups, bound_grant_groups);
    let covered = CoveredSet {
        sudo_binaries,
        groups,
        units,
        has_service_admin: set.has_service_admin,
        has_capability_admin: set.has_capability_admin,
        file_grants,
    };
    proof {
        assert(all.take(i as int) =~= all);
        let model = covered_by(defs, all, strict, text::views(bound_grant_groups@));
        assert(covered@.sudo_binaries =~= model.sudo_binaries);
        assert(covered@.groups =~= model.groups);
        assert(covered@.units =~= model.units);
    }
    (covered, warnings)
}

// ---------------------------------------------------------------------------
// Laws
// ---------------------------------------------------------------------------

/// Leaving one definition out leaves the ids of the others listed.
proof fn lemma_still_defined(entries: Seq<coverage::EntryView>, k: int, id: Seq<char>)
    requires
        0 <= k < entries.len(),
        entries[k].id != id,
    ensures
        defines(entries.remove(k), id) == defines(entries, id),
    decreases entries.len(),
{
    let less = entries.remove(k);
    if k == entries.len() - 1 {
        assert(less =~= entries.drop_last());
    } else {
        assert(less.drop_last() =~= entries.drop_last().remove(k));
        assert(less.last() == entries.last());
        lemma_still_defined(entries.drop_last(), k, id);
    }
}

/// Leaving out a definition whose permission does not resolve changes nothing that the
/// catalog hands out.
proof fn lemma_unresolved_adds_nothing(
    entries: Seq<coverage::EntryView>,
    k: int,
    strict: bool,
    name: Seq<char>,
)
    requires
        0 <= k < entries.len(),
        forall|j: int|
            0 <= j < entries.len() && (#[trigger] entries[j]).id == entries[k].id
                ==> entries[j].resolved is Err,
    ensures
        grants_id(entries.remove(k), name) == grants_id(entries, name),
        catalog_reaches(entries.remove(k), strict, name) == catalog_reaches(
            entries,
            strict,
            name,
        ),
        catalog_joins(entries.remove(k), name) == catalog_joins(entries, name),
        catalog_grants(entries.remove(k)) == catalog_grants(entries),
    decreases entries.len(),
{
    let less = entries.remove(k);
    assert(entries[k].resolved is Err);
    if k == entries.len() - 1 {
        assert(less =~= entries.drop_last());
    } else {
        let front = entries.drop_last();
        assert(less.drop_last() =~= front.remove(k));
        assert(less.last() == entries.last());
        assert forall|j: int|
            0 <= j < front.len() && (#[trigger] front[j]).id == front[k].id implies
            front[j].resolved is Err by {
            assert(front[j] == entries[j]);
        }
        lemma_unresolved_adds_nothing(front, k, strict, name);
        let e = entries.last();
        if e.id != entries[k].id {
            lemma_still_defined(front, k, e.id);
        } else {
            assert(entries[entries.len() - 1].resolved is Err);
        }
        assert(added(less) == added(entries));
    }
}

/// A permission that does not resolve covers nothing, whatever its id and wherever it is
/// listed: the covered set is the one without it.
pub proof fn unresolved_permissions_cover_nothing(
    entries: Seq<coverage::EntryView>,
    k: int,
    roles: Seq<coverage::ExpansionView>,
    strict: bool,
    bound: Seq<Seq<char>>,
)
    requires
        0 <= k < entries.len(),
        forall|j: int|
            0 <= j < entries.len() && (#[trigger] entries[j]).id == entries[k].id
                ==> entries[j].resolved is Err,
    ensures
        covered_by(entries.remove(k), roles, strict, bound) == covered_by(
            entries,
            roles,
            strict,
            bound,
        ),
{
    let with = covered_by(entries, roles, strict, bound);
    let without = covered_by(entries.remove(k), roles, strict, bound);
    assert forall|t: Seq<char>| with.sudo_binaries.contains(t) == without.sudo_binaries.contains(
        t,
    ) by {
        lemma_unresolved_adds_nothing(entries, k, strict, t);
    }
    assert forall|t: Seq<char>| with.groups.contains(t) == without.groups.contains(t) by {
        lemma_unresolved_adds_nothing(entries, k, strict, t);
    }
    lemma_unresolved_adds_nothing(entries, k, strict, SERVICE_ADMIN_ID@);
    lemma_unresolved_adds_nothing(entries, k, strict, CAPABILITY_ADMIN_ID@);
    assert(with.sudo_binaries =~= without.sudo_binaries);
    assert(with.groups =~= without.groups);
    assert(with.units =~= without.units);
}

/// What a command covers under `strict`, it covers without.
proof fn lemma_strict_commands(commands: Seq<Seq<char>>, bin: Seq<char>)
    ensures
        commands_reach(commands, true, bin) ==> commands_reach(commands, false, bin),
    decreases commands.len(),
{
    if commands.len() > 0 {
        lemma_strict_commands(commands.drop_last(), bin);
    }
}

/// What the catalog covers under `strict`, it covers without.
proof fn lemma_strict_catalog(entries: Seq<coverage::EntryView>, bin: Seq<char>)
    ensures
        catalog_reaches(entries, true, bin) ==> catalog_reaches(entries, false, bin),
    decreases entries.len(),
{
    if entries.len() > 0 {
        lemma_strict_catalog(entries.drop_last(), bin);
        if added(entries) is Some {
            lemma_strict_commands(added(entries)->0.sudo, bin);
        }
    }
}

/// Strictness never adds coverage: it takes binaries of templated commands away, and
/// leaves everything else as it is.
pub proof fn strict_covers_no_more(
    entries: Seq<coverage::EntryView>,
    roles: Seq<coverage::ExpansionView>,
    bound: Seq<Seq<char>>,
)
    ensures
        covered_by(entries, roles, true, bound).sudo_binaries.subset_of(
            covered_by(entries, roles, false, bound).sudo_binaries,
        ),
        covered_by(entries, roles, true, bound) == (CoveredView {
            sudo_binaries: covered_by(entries, roles, true, bound).sudo_binaries,
            ..covered_by(entries, roles, false, bound)
        }),
{
    let strict = covered_by(entries, roles, true, bound);
    let lenient = covered_by(entries, roles, false, bound);
    assert forall|b: Seq<char>| strict.sudo_binaries.contains(b) implies
        lenient.sudo_binaries.contains(b) by {
        lemma_strict_catalog(entries, b);
    }
    assert(strict.groups =~= lenient.groups);
    assert(strict.units =~= lenient.units);
}

/// The place of the first grant on a path is the first.
proof fn lemma_first_grant(grants: Seq<catalog::GrantView>, path: Seq<char>)
    ensures
        grant_place(grants, path) <= grants.len(),
        grant_place(grants, path) < grants.len() ==> grants[grant_place(grants, path) as int].path
            == path,
        forall|j: int|
            0 <= j < grant_place(grants, path) ==> (#[trigger] grants[j]).path != path,
    decreases grants.len(),
{
    if grants.len() > 0 && grants[0].path != path {
        lemma_first_grant(grants.skip(1), path);
        assert forall|j: int| 0 <= j < grant_place(grants, path) implies (
        #[trigger] grants[j]).path != path by {
            if j > 0 {
                assert(grants[j] == grants.skip(1)[j - 1]);
            }
        }
        if grant_place(grants, path) < grants.len() {
            let k = grant_place(grants.skip(1), path) as int;
            assert(grants.skip(1)[k] == grants[k + 1]);
        }
    }
}

/// The grants of a covered set are on distinct paths: what is granted on one path is
/// folded into one grant.
pub proof fn folded_grants_are_on_distinct_paths(grants: Seq<catalog::GrantView>)
    ensures
        forall|i: int, j: int|
            0 <= i < j < folded(grants).len() ==> (#[trigger] folded(grants)[i]).path != (
            #[trigger] folded(grants)[j]).path,
    decreases grants.len(),
{
    if grants.len() > 0 {
        folded_grants_are_on_distinct_paths(grants.drop_last());
        lemma_first_grant(folded(grants.drop_last()), grants.last().path);
    }
}

/// A placeholder is an opening brace and a closing one somewhere after it.
pub proof fn placeholders_are_braced(s: Seq<char>)
    ensures
        templated(s) <==> exists|i: int, j: int| 0 <= i < j < s.len() && s[i] == '{' && s[j] == '}',
{
    text::the_first_position(s, '{');
    let k = text::index_of(s, '{') as int;
    if templated(s) {
        let rest = s.skip(k + 1);
        let j = choose|j: int| 0 <= j < rest.len() && rest[j] == '}';
        assert(s[k] == '{' && s[k + 1 + j] == '}');
    }
    if exists|i: int, j: int| 0 <= i < j < s.len() && s[i] == '{' && s[j] == '}' {
        let (i, j) = choose|i: int, j: int| 0 <= i < j < s.len() && s[i] == '{' && s[j] == '}';
        assert(k <= i);
        assert(s.skip(k + 1)[j - k - 1] == '}');
    }
}

/// What a command of a catalog permission makes reachable is its first word and nothing
/// else. With a placeholder in the command, that holds only without `strict` and only of a
/// word that no brace opens in.
pub proof fn catalog_commands_reach_their_first_word(
    command: Seq<char>,
    strict: bool,
    bin: Seq<char>,
)
    ensures
        catalog_binary(command, strict) == Some(bin) <==> text::first_word(command) == Some(bin)
            && (templated(command) ==> !strict && !bin.contains('{')),
        binary_of(command) == text::first_word(command),
{
}

/// The unit that a command names: the last word of a `systemctl` command, where that is
/// another word than the first, no option and no subcommand. It is known with `.service` at
/// its end and without.
pub proof fn units_are_named_last(command: Seq<char>, u: Seq<char>)
    ensures
        names_unit(command, u) <==> {
            let words = text::words(command);
            let last = words.last();
            &&& words.len() > 0
            &&& words[0] == "systemctl"@ || text::ends_with(words[0], "/systemctl"@)
            &&& last != words[0]
            &&& !text::starts_with(last, "-"@)
            &&& last != "start"@
            &&& last != "stop"@
            &&& last != "restart"@
            &&& last != "status"@
            &&& last != "is-active"@
            &&& last != "reset-failed"@
            &&& last != "enable"@
            &&& last != "disable"@
            &&& last != "daemon-reload"@
            &&& u == text::without_suffix(last, ".service"@) || u == text::without_suffix(
                last,
                ".service"@,
            ) + ".service"@
        },
{
    let t = text::str_views(SYSTEMCTL_VERBS@);
    assert(t[0] == "start"@);
    assert(t[1] == "stop"@);
    assert(t[2] == "restart"@);
    assert(t[3] == "status"@);
    assert(t[4] == "is-active"@);
    assert(t[5] == "reset-failed"@);
    assert(t[6] == "enable"@);
    assert(t[7] == "disable"@);
    assert(t[8] == "daemon-reload"@);
    assert(t.len() == 9);
    if text::words(command).len() > 0 {
        text::listed_is_contained(t, text::words(command).last());
    }
}

/// A catalog permission reaches what one of its commands does.
proof fn lemma_commands_reach(commands: Seq<Seq<char>>, strict: bool, bin: Seq<char>)
    ensures
        commands_reach(commands, strict, bin) <==> exists|i: int|
            0 <= i < commands.len() && catalog_binary(#[trigger] commands[i], strict) == Some(bin),
    decreases commands.len(),
{
    if commands.len() > 0 {
        let before = commands.drop_last();
        lemma_commands_reach(before, strict, bin);
        if commands_reach(before, strict, bin) {
            let i = choose|i: int|
                0 <= i < before.len() && catalog_binary(#[trigger] before[i], strict) == Some(bin);
            assert(commands[i] == before[i]);
        }
        if exists|i: int|
            0 <= i < commands.len() && catalog_binary(#[trigger] commands[i], strict) == Some(bin) {
            let i = choose|i: int|
                0 <= i < commands.len() && catalog_binary(#[trigger] commands[i], strict)
                    == Some(bin);
            if i < before.len() {
                assert(before[i] == commands[i]);
            }
        }
        assert(commands[commands.len() - 1] == commands.last());
    }
}

/// A role reaches the first words of its commands.
proof fn lemma_role_commands_reach(commands: Seq<Seq<char>>, bin: Seq<char>)
    ensures
        role_commands_reach(commands, bin) <==> exists|i: int|
            0 <= i < commands.len() && text::first_word(#[trigger] commands[i]) == Some(bin),
    decreases commands.len(),
{
    if commands.len() > 0 {
        let before = commands.drop_last();
        lemma_role_commands_reach(before, bin);
        if role_commands_reach(before, bin) {
            let i = choose|i: int|
                0 <= i < before.len() && text::first_word(#[trigger] before[i]) == Some(bin);
            assert(commands[i] == before[i]);
        }
        if exists|i: int|
            0 <= i < commands.len() && text::first_word(#[trigger] commands[i]) == Some(bin) {
            let i = choose|i: int|
                0 <= i < commands.len() && text::first_word(#[trigger] commands[i]) == Some(bin);
            if i < before.len() {
                assert(before[i] == commands[i]);
            }
        }
        assert(commands[commands.len() - 1] == commands.last());
    }
}

/// A role names the units of its commands.
proof fn lemma_role_commands_name(commands: Seq<Seq<char>>, u: Seq<char>)
    ensures
        role_commands_name(commands, u) <==> exists|i: int|
            0 <= i < commands.len() && names_unit(#[trigger] commands[i], u),
    decreases commands.len(),
{
    if commands.len() > 0 {
        let before = commands.drop_last();
        lemma_role_commands_name(before, u);
        if role_commands_name(before, u) {
            let i = choose|i: int| 0 <= i < before.len() && names_unit(#[trigger] before[i], u);
            assert(commands[i] == before[i]);
        }
        if exists|i: int| 0 <= i < commands.len() && names_unit(#[trigger] commands[i], u) {
            let i = choose|i: int| 0 <= i < commands.len() && names_unit(#[trigger] commands[i], u);
            if i < before.len() {
                assert(before[i] == commands[i]);
            }
        }
        assert(commands[commands.len() - 1] == commands.last());
    }
}

/// An id is listed where some definition has it.
proof fn lemma_defines(entries: Seq<coverage::EntryView>, id: Seq<char>)
    ensures
        defines(entries, id) <==> exists|i: int|
            0 <= i < entries.len() && (#[trigger] entries[i]).id == id,
    decreases entries.len(),
{
    if entries.len() > 0 {
        let before = entries.drop_last();
        lemma_defines(before, id);
        if defines(before, id) {
            let i = choose|i: int| 0 <= i < before.len() && (#[trigger] before[i]).id == id;
            assert(entries[i] == before[i]);
        }
        if exists|i: int| 0 <= i < entries.len() && (#[trigger] entries[i]).id == id {
            let i = choose|i: int| 0 <= i < entries.len() && (#[trigger] entries[i]).id == id;
            if i < before.len() {
                assert(before[i] == entries[i]);
            }
        }
        assert(entries[entries.len() - 1] == entries.last());
    }
}

/// The roles reach what one of them does.
proof fn lemma_roles_reach(roles: Seq<coverage::ExpansionView>, bin: Seq<char>)
    ensures
        roles_reach(roles, bin) <==> exists|i: int|
            0 <= i < roles.len() && role_commands_reach((#[trigger] roles[i]).sudo, bin),
    decreases roles.len(),
{
    if roles.len() > 0 {
        let before = roles.drop_last();
        lemma_roles_reach(before, bin);
        if roles_reach(before, bin) {
            let i = choose|i: int|
                0 <= i < before.len() && role_commands_reach((#[trigger] before[i]).sudo, bin);
            assert(roles[i] == before[i]);
        }
        if exists|i: int|
            0 <= i < roles.len() && role_commands_reach((#[trigger] roles[i]).sudo, bin) {
            let i = choose|i: int|
                0 <= i < roles.len() && role_commands_reach((#[trigger] roles[i]).sudo, bin);
            if i < before.len() {
                assert(before[i] == roles[i]);
            }
        }
        assert(roles[roles.len() - 1] == roles.last());
    }
}

/// The roles hand out the groups of each of them.
proof fn lemma_roles_join(roles: Seq<coverage::ExpansionView>, group: Seq<char>)
    ensures
        roles_join(roles, group) <==> exists|i: int|
            0 <= i < roles.len() && text::listed((#[trigger] roles[i]).groups, group),
    decreases roles.len(),
{
    if roles.len() > 0 {
        let before = roles.drop_last();
        lemma_roles_join(before, group);
        if roles_join(before, group) {
            let i = choose|i: int|
                0 <= i < before.len() && text::listed((#[trigger] before[i]).groups, group);
            assert(roles[i] == before[i]);
        }
        if exists|i: int|
            0 <= i < roles.len() && text::listed((#[trigger] roles[i]).groups, group) {
            let i = choose|i: int|
                0 <= i < roles.len() && text::listed((#[trigger] roles[i]).groups, group);
            if i < before.len() {
                assert(before[i] == roles[i]);
            }
        }
        assert(roles[roles.len() - 1] == roles.last());
    }
}

/// The roles name the units that one of them does.
proof fn lemma_roles_name(roles: Seq<coverage::ExpansionView>, u: Seq<char>)
    ensures
        roles_name(roles, u) <==> exists|i: int|
            0 <= i < roles.len() && role_commands_name((#[trigger] roles[i]).sudo, u),
    decreases roles.len(),
{
    if roles.len() > 0 {
        let before = roles.drop_last();
        lemma_roles_name(before, u);
        if roles_name(before, u) {
            let i = choose|i: int|
                0 <= i < before.len() && role_commands_name((#[trigger] before[i]).sudo, u);
            assert(roles[i] == before[i]);
        }
        if exists|i: int|
            0 <= i < roles.len() && role_commands_name((#[trigger] roles[i]).sudo, u) {
            let i = choose|i: int|
                0 <= i < roles.len() && role_commands_name((#[trigger] roles[i]).sudo, u);
            if i < before.len() {
                assert(before[i] == roles[i]);
            }
        }
        assert(roles[roles.len() - 1] == roles.last());
    }
}

/// Whether the `i`-th definition counts: its permission resolves, and it is the first that
/// is listed under its id.
pub open spec fn counts(entries: Seq<coverage::EntryView>, i: int) -> bool {
    &&& 0 <= i < entries.len()
    &&& entries[i].resolved is Ok
    &&& forall|j: int| 0 <= j < i ==> (#[trigger] entries[j]).id != entries[i].id
}

/// What a definition adds is its expansion, where it counts.
proof fn lemma_added(entries: Seq<coverage::EntryView>, i: int)
    requires
        0 <= i < entries.len(),
    ensures
        added(entries.take(i + 1)) == (if counts(entries, i) {
            Some(entries[i].resolved->Ok_0)
        } else {
            None
        }),
        entries.take(i + 1).last() == entries[i],
        entries.take(i + 1).drop_last() == entries.take(i),
{
    let upto = entries.take(i + 1);
    assert(upto.last() == entries[i]);
    assert(upto.drop_last() =~= entries.take(i));
    lemma_defines(entries.take(i), entries[i].id);
    if defines(entries.take(i), entries[i].id) {
        let j = choose|j: int|
            0 <= j < entries.take(i).len() && (#[trigger] entries.take(i)[j]).id == entries[i].id;
        assert(entries[j].id == entries[i].id);
    } else {
        assert forall|j: int| 0 <= j < i implies (#[trigger] entries[j]).id != entries[i].id by {
            assert(entries.take(i)[j] == entries[j]);
        }
    }
}

/// A permission is granted where a definition of it counts.
proof fn lemma_grants_id(entries: Seq<coverage::EntryView>, n: int, id: Seq<char>)
    requires
        0 <= n <= entries.len(),
    ensures
        grants_id(entries.take(n), id) <==> exists|i: int|
            0 <= i < n && #[trigger] counts(entries, i) && entries[i].id == id,
    decreases n,
{
    if n == 0 {
        assert(entries.take(0).len() == 0);
    } else {
        lemma_grants_id(entries, n - 1, id);
        lemma_added(entries, n - 1);
        assert(counts(entries, n - 1) || !counts(entries, n - 1));
    }
}

/// The catalog reaches what a definition that counts does.
proof fn lemma_catalog_reaches(
    entries: Seq<coverage::EntryView>,
    n: int,
    strict: bool,
    bin: Seq<char>,
)
    requires
        0 <= n <= entries.len(),
    ensures
        catalog_reaches(entries.take(n), strict, bin) <==> exists|i: int|
            0 <= i < n && #[trigger] counts(entries, i)
                && commands_reach(entries[i].resolved->Ok_0.sudo, strict, bin),
    decreases n,
{
    if n == 0 {
        assert(entries.take(0).len() == 0);
    } else {
        lemma_catalog_reaches(entries, n - 1, strict, bin);
        lemma_added(entries, n - 1);
        assert(counts(entries, n - 1) || !counts(entries, n - 1));
    }
}

/// The catalog hands out the groups of the definitions that count.
proof fn lemma_catalog_joins(entries: Seq<coverage::EntryView>, n: int, group: Seq<char>)
    requires
        0 <= n <= entries.len(),
    ensures
        catalog_joins(entries.take(n), group) <==> exists|i: int|
            0 <= i < n && #[trigger] counts(entries, i)
                && text::listed(entries[i].resolved->Ok_0.groups, group),
    decreases n,
{
    if n == 0 {
        assert(entries.take(0).len() == 0);
    } else {
        lemma_catalog_joins(entries, n - 1, group);
        lemma_added(entries, n - 1);
        assert(counts(entries, n - 1) || !counts(entries, n - 1));
    }
}

/// The binaries of a covered set: the first word of every command of every role, and of
/// every command of every catalog definition that counts, as far as that command covers
/// one. Nothing else is a binary of it.
pub proof fn covered_binaries_are_first_words(
    entries: Seq<coverage::EntryView>,
    roles: Seq<coverage::ExpansionView>,
    strict: bool,
    bound: Seq<Seq<char>>,
    bin: Seq<char>,
)
    ensures
        covered_by(entries, roles, strict, bound).sudo_binaries.contains(bin) <==> {
            ||| exists|r: int, i: int|
                #![trigger roles[r].sudo[i]]
                0 <= r < roles.len() && 0 <= i < roles[r].sudo.len() && text::first_word(
                    roles[r].sudo[i],
                ) == Some(bin)
            ||| exists|e: int, i: int|
                #![trigger counts(entries, e), entries[e].resolved->Ok_0.sudo[i]]
                {
                    &&& counts(entries, e)
                    &&& 0 <= i < entries[e].resolved->Ok_0.sudo.len()
                    &&& text::first_word(entries[e].resolved->Ok_0.sudo[i]) == Some(bin)
                    &&& templated(entries[e].resolved->Ok_0.sudo[i]) ==> !strict && !bin.contains(
                        '{',
                    )
                }
        },
        covered_by(entries, roles, strict, bound).sudo_binaries.contains(bin) ==> bin.len() > 0
            && forall|k: int| 0 <= k < bin.len() ==> !text::is_space(#[trigger] bin[k]),
{
    let all = covered_by(entries, roles, strict, bound);
    lemma_roles_reach(roles, bin);
    assert(entries.take(entries.len() as int) =~= entries);
    lemma_catalog_reaches(entries, entries.len() as int, strict, bin);
    if roles_reach(roles, bin) {
        let r = choose|r: int|
            0 <= r < roles.len() && role_commands_reach((#[trigger] roles[r]).sudo, bin);
        lemma_role_commands_reach(roles[r].sudo, bin);
        let i = choose|i: int|
            0 <= i < roles[r].sudo.len() && text::first_word(#[trigger] roles[r].sudo[i]) == Some(
                bin,
            );
        text::the_first_word(roles[r].sudo[i]);
        lemma_no_space(roles[r].sudo[i], bin);
    }
    if catalog_reaches(entries, strict, bin) {
        let e = choose|e: int|
            0 <= e < entries.len() && #[trigger] counts(entries, e) && commands_reach(
                entries[e].resolved->Ok_0.sudo,
                strict,
                bin,
            );
        let sudo = entries[e].resolved->Ok_0.sudo;
        lemma_commands_reach(sudo, strict, bin);
        let i = choose|i: int|
            0 <= i < sudo.len() && catalog_binary(#[trigger] sudo[i], strict) == Some(bin);
        catalog_commands_reach_their_first_word(sudo[i], strict, bin);
        lemma_no_space(sudo[i], bin);
        assert(counts(entries, e) && text::first_word(entries[e].resolved->Ok_0.sudo[i]) == Some(
            bin,
        ));
    }
    if exists|r: int, i: int|
        #![trigger roles[r].sudo[i]]
        0 <= r < roles.len() && 0 <= i < roles[r].sudo.len() && text::first_word(roles[r].sudo[i])
            == Some(bin) {
        let (r, i) = choose|r: int, i: int|
            #![trigger roles[r].sudo[i]]
            0 <= r < roles.len() && 0 <= i < roles[r].sudo.len() && text::first_word(
                roles[r].sudo[i],
            ) == Some(bin);
        lemma_role_commands_reach(roles[r].sudo, bin);
        assert(role_commands_reach(roles[r].sudo, bin));
    }
    if exists|e: int, i: int|
        #![trigger counts(entries, e), entries[e].resolved->Ok_0.sudo[i]]
        {
            &&& counts(entries, e)
            &&& 0 <= i < entries[e].resolved->Ok_0.sudo.len()
            &&& text::first_word(entries[e].resolved->Ok_0.sudo[i]) == Some(bin)
            &&& templated(entries[e].resolved->Ok_0.sudo[i]) ==> !strict && !bin.contains('{')
        } {
        let (e, i) = choose|e: int, i: int|
            #![trigger counts(entries, e), entries[e].resolved->Ok_0.sudo[i]]
            {
                &&& counts(entries, e)
                &&& 0 <= i < entries[e].resolved->Ok_0.sudo.len()
                &&& text::first_word(entries[e].resolved->Ok_0.sudo[i]) == Some(bin)
                &&& templated(entries[e].resolved->Ok_0.sudo[i]) ==> !strict && !bin.contains('{')
            };
        let sudo = entries[e].resolved->Ok_0.sudo;
        catalog_commands_reach_their_first_word(sudo[i], strict, bin);
        lemma_commands_reach(sudo, strict, bin);
        assert(commands_reach(sudo, strict, bin));
        assert(counts(entries, e));
    }
}

/// A first word is not empty and has no white space in it.
proof fn lemma_no_space(command: Seq<char>, bin: Seq<char>)
    requires
        text::first_word(command) == Some(bin),
    ensures
        bin.len() > 0,
        forall|k: int| 0 <= k < bin.len() ==> !text::is_space(#[trigger] bin[k]),
{
    text::the_first_word(command);
    let (i, j) = choose|i: int, j: int|
        #![trigger command.subrange(i, j)]
        {
            &&& 0 <= i < j <= command.len()
            &&& bin == command.subrange(i, j)
            &&& forall|k: int| 0 <= k < i ==> text::is_space(#[trigger] command[k])
            &&& forall|k: int| i <= k < j ==> !text::is_space(#[trigger] command[k])
            &&& j < command.len() ==> text::is_space(command[j])
        };
    assert forall|k: int| 0 <= k < bin.len() implies !text::is_space(#[trigger] bin[k]) by {
        assert(bin[k] == command[i + k]);
    }
}

/// The groups of a covered set: those of every role, those of every catalog definition that
/// counts, and the bound ones. The units: those that the commands of the roles name. Every
/// unit, or every file with a capability, is covered where the permission for that counts.
pub proof fn covered_groups_units_and_permissions(
    entries: Seq<coverage::EntryView>,
    roles: Seq<coverage::ExpansionView>,
    strict: bool,
    bound: Seq<Seq<char>>,
    name: Seq<char>,
)
    ensures
        covered_by(entries, roles, strict, bound).groups.contains(name) <==> {
            ||| bound.contains(name)
            ||| exists|r: int| 0 <= r < roles.len() && (#[trigger] roles[r]).groups.contains(name)
            ||| exists|e: int| #[trigger]
                counts(entries, e) && entries[e].resolved->Ok_0.groups.contains(name)
        },
        covered_by(entries, roles, strict, bound).units.contains(name) <==> exists|r: int, i: int|
            #![trigger roles[r].sudo[i]]
            0 <= r < roles.len() && 0 <= i < roles[r].sudo.len() && names_unit(
                roles[r].sudo[i],
                name,
            ),
        covered_by(entries, roles, strict, bound).service_admin <==> exists|e: int| #[trigger]
            counts(entries, e) && entries[e].id == "service-admin"@,
        covered_by(entries, roles, strict, bound).capability_admin <==> exists|e: int| #[trigger]
            counts(entries, e) && entries[e].id == "capability-admin"@,
{
    let n = entries.len() as int;
    assert(entries.take(n) =~= entries);
    lemma_grants_id(entries, n, "service-admin"@);
    lemma_grants_id(entries, n, "capability-admin"@);
    lemma_catalog_joins(entries, n, name);
    lemma_roles_join(roles, name);
    lemma_roles_name(roles, name);
    text::listed_is_contained(bound, name);
    assert forall|r: int| 0 <= r < roles.len() implies text::listed(
        (#[trigger] roles[r]).groups,
        name,
    ) == roles[r].groups.contains(name) by {
        text::listed_is_contained(roles[r].groups, name);
    }
    assert forall|e: int| #[trigger] counts(entries, e) implies text::listed(
        entries[e].resolved->Ok_0.groups,
        name,
    ) == entries[e].resolved->Ok_0.groups.contains(name) by {
        text::listed_is_contained(entries[e].resolved->Ok_0.groups, name);
    }
    if roles_name(roles, name) {
        let r = choose|r: int|
            0 <= r < roles.len() && role_commands_name((#[trigger] roles[r]).sudo, name);
        lemma_role_commands_name(roles[r].sudo, name);
        let i = choose|i: int|
            0 <= i < roles[r].sudo.len() && names_unit(#[trigger] roles[r].sudo[i], name);
        assert(names_unit(roles[r].sudo[i], name));
    }
    if exists|r: int, i: int|
        #![trigger roles[r].sudo[i]]
        0 <= r < roles.len() && 0 <= i < roles[r].sudo.len() && names_unit(roles[r].sudo[i], name) {
        let (r, i) = choose|r: int, i: int|
            #![trigger roles[r].sudo[i]]
            0 <= r < roles.len() && 0 <= i < roles[r].sudo.len() && names_unit(
                roles[r].sudo[i],
                name,
            );
        lemma_role_commands_name(roles[r].sudo, name);
        assert(role_commands_name(roles[r].sudo, name));
    }
}

/// The concrete grants of a list are those of its parts, in order.
pub proof fn concrete_grants_add_up(a: Seq<catalog::GrantView>, b: Seq<catalog::GrantView>)
    ensures
        concrete(Seq::<catalog::GrantView>::empty()).len() == 0,
        concrete(a + b) == concrete(a) + concrete(b),
    decreases b.len(),
{
    if b.len() == 0 {
        assert(a + b =~= a);
        assert(concrete(a) + concrete(b) =~= concrete(a));
    } else {
        concrete_grants_add_up(a, b.drop_last());
        assert((a + b).drop_last() =~= a + b.drop_last());
        assert((a + b).last() == b.last());
        assert(concrete(a + b) =~= concrete(a) + concrete(b));
    }
}

/// The grants of the roles are those of each role, in order.
pub proof fn role_grants_add_up(a: Seq<coverage::ExpansionView>, b: Seq<coverage::ExpansionView>)
    ensures
        role_grants(Seq::<coverage::ExpansionView>::empty()).len() == 0,
        role_grants(a + b) == role_grants(a) + role_grants(b),
    decreases b.len(),
{
    if b.len() == 0 {
        assert(a + b =~= a);
        assert(role_grants(a) + role_grants(b) =~= role_grants(a));
    } else {
        role_grants_add_up(a, b.drop_last());
        assert((a + b).drop_last() =~= a + b.drop_last());
        assert((a + b).last() == b.last());
        assert(role_grants(a + b) =~= role_grants(a) + role_grants(b));
    }
}

/// A grant is concrete where its path has no placeholder; a role's grants are all counted.
pub proof fn one_grant_and_one_role(g: catalog::GrantView, role: coverage::ExpansionView)
    ensures
        templated(g.path) ==> concrete(seq![g]).len() == 0,
        !templated(g.path) ==> concrete(seq![g]) == seq![g],
        role_grants(seq![role]) == role.file_grants,
{
    reveal_with_fuel(concrete, 2);
    reveal_with_fuel(role_grants, 2);
    assert(seq![g].drop_last() =~= seq![]);
    assert(seq![role].drop_last() =~= seq![]);
    assert(concrete(seq![g].drop_last()) =~= seq![]);
    assert(seq![g].last() == g);
    assert(seq![role].last() == role);
    assert(Seq::<catalog::GrantView>::empty() + role.file_grants =~= role.file_grants);
    assert(Seq::<catalog::GrantView>::empty().push(g) =~= seq![g]);
}

/// One definition more: it adds its concrete grants where its permission resolves and its id
/// was not listed before. Where it does not resolve, and was not listed before, there is a
/// warning that says why.
pub proof fn one_definition_more(entries: Seq<coverage::EntryView>, e: coverage::EntryView)
    ensures
        catalog_grants(Seq::<coverage::EntryView>::empty()).len() == 0,
        unresolved(Seq::<coverage::EntryView>::empty()).len() == 0,
        ({
            let known = exists|j: int| 0 <= j < entries.len() && (#[trigger] entries[j]).id == e.id;
            &&& catalog_grants(entries.push(e)) == (match e.resolved {
                Ok(p) => if known {
                    catalog_grants(entries)
                } else {
                    catalog_grants(entries) + concrete(p.file_grants)
                },
                Err(_) => catalog_grants(entries),
            })
            &&& unresolved(entries.push(e)) == (match e.resolved {
                Ok(_) => unresolved(entries),
                Err(reason) => if known {
                    unresolved(entries)
                } else {
                    unresolved(entries).push(
                        "catalog permission "@ + e.id + " unresolved: "@ + reason,
                    )
                },
            })
        }),
{
    let more = entries.push(e);
    assert(more.drop_last() =~= entries);
    assert(more.last() == e);
    lemma_defines(entries, e.id);
}

/// One grant more: the first on its path is kept as it is, at the end. One on a path that is
/// granted already is joined to that grant, in its place: their accesses add up, it is
/// recursive where either is, and then on a directory.
pub proof fn one_grant_more(grants: Seq<catalog::GrantView>, g: catalog::GrantView)
    ensures
        folded(Seq::<catalog::GrantView>::empty()).len() == 0,
        (forall|i: int| 0 <= i < folded(grants).len() ==> (#[trigger] folded(grants)[i]).path
            != g.path) ==> folded(grants.push(g)) == folded(grants).push(g),
        forall|i: int|
            0 <= i < folded(grants).len() && (#[trigger] folded(grants)[i]).path == g.path ==> {
                let old = folded(grants)[i];
                folded(grants.push(g)) == folded(grants).update(
                    i,
                    catalog::GrantView {
                        path: g.path,
                        access: old.access.joined(g.access),
                        recursive: old.recursive || g.recursive,
                        shape: if old.recursive || g.recursive {
                            Shape::Dir
                        } else {
                            old.shape
                        },
                    },
                )
            },
{
    let more = grants.push(g);
    assert(more.drop_last() =~= grants);
    assert(more.last() == g);
    lemma_first_grant(folded(grants), g.path);
    folded_grants_are_on_distinct_paths(grants);
}

/// The file grants of a covered set: those of the catalog and then those of the roles, with
/// those on one path joined.
pub proof fn covered_grants_are_joined(
    entries: Seq<coverage::EntryView>,
    roles: Seq<coverage::ExpansionView>,
    strict: bool,
    bound: Seq<Seq<char>>,
)
    ensures
        covered_by(entries, roles, strict, bound).file_grants == folded(
            catalog_grants(entries) + role_grants(roles),
        ),
{
}

} // verus!
