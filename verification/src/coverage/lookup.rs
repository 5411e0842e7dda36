//! Reverse lookup: which permissions grant access to a path or command, and how.
//!
//! The inverse of coverage, with the same match rules. An argument that matches nothing
//! yields an empty list, which is a successful answer.

use vstd::prelude::*;

use crate::catalog;
use crate::catalog::{Access, ResolvedFileGrant, Risk};
use crate::coverage::covered;
use crate::coverage::report;
use crate::inspect;
use crate::text;

verus! {

broadcast use vstd::string::group_string_axioms;

/// Who a grant lands on: a role account or a Unix group.
#[derive(Debug, PartialEq, Eq)]
pub enum GrantTarget {
    /// The grant is carried by a role-account permission set.
    Account(String),
    /// The grant is bound to the named group: every member inherits it.
    Group(String),
}

/// The contents of a [`GrantTarget`].
pub enum TargetView {
    /// See [`GrantTarget::Account`].
    Account(Seq<char>),
    /// See [`GrantTarget::Group`].
    Group(Seq<char>),
}

impl View for GrantTarget {
    type V = TargetView;

    open spec fn view(&self) -> TargetView {
        match self {
            GrantTarget::Account(a) => TargetView::Account(a@),
            GrantTarget::Group(g) => TargetView::Group(g@),
        }
    }
}

impl Clone for GrantTarget {
    fn clone(&self) -> (r: Self)
        ensures
            r@ == self@,
    {
        match self {
            GrantTarget::Account(a) => GrantTarget::Account(a.clone()),
            GrantTarget::Group(g) => GrantTarget::Group(g.clone()),
        }
    }
}

impl GrantTarget {
    /// The group name when this is a group target.
    pub fn group(&self) -> (r: Option<&str>)
        ensures
            inspect::opt_str(r) == match self@ {
                TargetView::Group(g) => Some(g),
                TargetView::Account(_) => None,
            },
    {
        match self {
            GrantTarget::Group(g) => Some(g.as_str()),
            GrantTarget::Account(_) => None,
        }
    }
}

/// A single grant origin's resolved grants.
#[derive(Debug, Clone, PartialEq, Eq)]
pub struct GrantSource {
    /// The permission id (account source) or group name (group source).
    pub id: String,
    /// Who the grant lands on.
    pub target: GrantTarget,
    /// Advisory risk class of the permission.
    pub risk: Option<Risk>,
    /// Concrete sudo command strings the source expands to.
    pub sudo: Vec<String>,
    /// Resolved file grants the source carries.
    pub file_grants: Vec<ResolvedFileGrant>,
}

/// The contents of a [`GrantSource`].
#[verifier::ext_equal]
pub struct SourceView {
    /// The permission id or group name.
    pub id: Seq<char>,
    /// Who the grant lands on.
    pub target: TargetView,
    /// The risk class.
    pub risk: Option<Risk>,
    /// The sudo commands.
    pub sudo: Seq<Seq<char>>,
    /// The file grants.
    pub file_grants: Seq<catalog::GrantView>,
}

impl View for GrantSource {
    type V = SourceView;

    open spec fn view(&self) -> SourceView {
        SourceView {
            id: self.id@,
            target: self.target@,
            risk: self.risk,
            sudo: text::views(self.sudo@),
            file_grants: catalog::grant_views(self.file_grants@),
        }
    }
}

/// The contents of a list of sources.
pub open spec fn source_views(v: Seq<GrantSource>) -> Seq<SourceView> {
    v.map_values(|s: GrantSource| s@)
}

/// What kind of grant matched.
#[derive(Debug, Clone, Copy, PartialEq, Eq, Structural)]
pub enum GrantKind {
    /// The argument is the binary of a sudo command.
    Sudo,
    /// The argument is covered by a file grant.
    File,
}

impl GrantKind {
    /// The token of a kind.
    pub open spec fn text(self) -> Seq<char> {
        match self {
            GrantKind::Sudo => "sudo"@,
            GrantKind::File => "file"@,
        }
    }

    /// Stable lowercase token.
    pub fn as_str(self) -> (r: &'static str)
        ensures
            r@ == self.text(),
    {
        match self {
            GrantKind::Sudo => "sudo",
            GrantKind::File => "file",
        }
    }
}

/// One match: a permission that grants access to the argument, and how.
#[derive(Debug, Clone, PartialEq, Eq)]
pub struct GrantMatch {
    /// The permission id or group name that grants access.
    pub permission: String,
    /// Who the grant lands on.
    pub target: GrantTarget,
    /// Whether access is via sudo or via a file grant.
    pub kind: GrantKind,
    /// The matching sudo command, or the grant path.
    pub detail: String,
    /// For a file match, the access.
    pub access: Option<Access>,
    /// For a file match, whether the grant is recursive.
    pub recursive: Option<bool>,
    /// For a file match, the enforcing backend.
    pub backend: Option<String>,
    /// Advisory risk class of the granting permission.
    pub risk: Option<Risk>,
}

/// The contents of a [`GrantMatch`].
#[verifier::ext_equal]
pub struct MatchView {
    /// The permission id or group name.
    pub permission: Seq<char>,
    /// Who the grant lands on.
    pub target: TargetView,
    /// The kind of grant.
    pub kind: GrantKind,
    /// The command or path.
    pub detail: Seq<char>,
    /// The access.
    pub access: Option<Access>,
    /// Whether the grant is recursive.
    pub recursive: Option<bool>,
    /// The backend.
    pub backend: Option<Seq<char>>,
    /// The risk class.
    pub risk: Option<Risk>,
}

impl View for GrantMatch {
    type V = MatchView;

    open spec fn view(&self) -> MatchView {
        MatchView {
            permission: self.permission@,
            target: self.target@,
            kind: self.kind,
            detail: self.detail@,
            access: self.access,
            recursive: self.recursive,
            backend: inspect::opt_text(self.backend),
            risk: self.risk,
        }
    }
}

/// The contents of a list of matches.
pub open spec fn match_views(v: Seq<GrantMatch>) -> Seq<MatchView> {
    v.map_values(|m: GrantMatch| m@)
}

/// The binary that an argument asks about: its first word, or the argument itself where
/// it has none.
pub open spec fn asked_binary(arg: Seq<char>) -> Seq<char> {
    match covered::binary_of(arg) {
        Some(w) => w,
        None => arg,
    }
}

/// The match of a sudo command.
pub open spec fn sudo_match(src: SourceView, command: Seq<char>) -> MatchView {
    MatchView {
        permission: src.id,
        target: src.target,
        kind: GrantKind::Sudo,
        detail: command,
        access: None,
        recursive: None,
        backend: None,
        risk: src.risk,
    }
}

/// The match of a file grant.
pub open spec fn file_match(src: SourceView, g: catalog::GrantView) -> MatchView {
    MatchView {
        permission: src.id,
        target: src.target,
        kind: GrantKind::File,
        detail: g.path,
        access: Some(g.access),
        recursive: Some(g.recursive),
        backend: Some(report::backend_text(g.shape)),
        risk: src.risk,
    }
}

/// The matches among the commands of a source, in order.
pub open spec fn sudo_matches(
    arg: Seq<char>,
    src: SourceView,
    commands: Seq<Seq<char>>,
) -> Seq<MatchView>
    decreases commands.len(),
{
    if commands.len() == 0 {
        seq![]
    } else {
        let before = sudo_matches(arg, src, commands.drop_last());
        if covered::binary_of(commands.last()) == Some(asked_binary(arg)) {
            before.push(sudo_match(src, commands.last()))
        } else {
            before
        }
    }
}

/// The matches among the file grants of a source, in order.
pub open spec fn file_matches(
    arg: Seq<char>,
    src: SourceView,
    grants: Seq<catalog::GrantView>,
) -> Seq<MatchView>
    decreases grants.len(),
{
    if grants.len() == 0 {
        seq![]
    } else {
        let before = file_matches(arg, src, grants.drop_last());
        if grants.last().covers(arg) {
            before.push(file_match(src, grants.last()))
        } else {
            before
        }
    }
}

/// The matches of the sources, in source order; those of commands before those of file
/// grants in each.
pub open spec fn matches_of(arg: Seq<char>, sources: Seq<SourceView>) -> Seq<MatchView>
    decreases sources.len(),
{
    if sources.len() == 0 {
        seq![]
    } else {
        let src = sources.last();
        matches_of(arg, sources.drop_last()) + sudo_matches(arg, src, src.sudo) + file_matches(
            arg,
            src,
            src.file_grants,
        )
    }
}

/// Append the matches among the commands of a source.
fn push_sudo_matches(arg: &str, src: &GrantSource, out: &mut Vec<GrantMatch>)
    ensures
        match_views(final(out)@) == match_views(old(out)@) + sudo_matches(
            arg@,
            src@,
            src@.sudo,
        ),
{
    let arg_bin = match covered::sudo_binary_token(arg) {
        Some(w) => w,
        None => arg.to_owned(),
    };
    let ghost all = src@.sudo;
    let ghost was = match_views(out@);
    let mut i: usize = 0;
    proof {
        assert(was + sudo_matches(arg@, src@, all.take(0)) =~= was);
    }
    while i < src.sudo.len()
        invariant
            all == text::views(src.sudo@),
            arg_bin@ == asked_binary(arg@),
            i <= src.sudo@.len(),
            match_views(out@) == was + sudo_matches(arg@, src@, all.take(i as int)),
        decreases src.sudo@.len() - i,
    {
        let cmd = &src.sudo[i];
        let ghost so_far = match_views(out@);
        proof {
            assert(all.take(i + 1).drop_last() =~= all.take(i as int));
            assert(all.take(i + 1).last() == cmd@);
        }
        match covered::sudo_binary_token(cmd) {
            Some(bin) => {
                if text::same(&bin, &arg_bin) {
                    let m = GrantMatch {
                        permission: src.id.clone(),
                        target: src.target.clone(),
                        kind: GrantKind::Sudo,
                        detail: cmd.clone(),
                        access: None,
                        recursive: None,
                        backend: None,
                        risk: src.risk,
                    };
                    let ghost one = m@;
                    out.push(m);
                    proof {
                        assert(one == sudo_match(src@, cmd@));
                        assert(match_views(out@) =~= so_far.push(one));
                        assert(match_views(out@) =~= was + sudo_matches(
                            arg@,
                            src@,
                            all.take(i + 1),
                        ));
                    }
                }
            },
            None => {},
        }
        i += 1;
    }
    proof {
        assert(all.take(i as int) =~= all);
    }
}

/// Append the matches among the file grants of a source.
fn push_file_matches(arg: &str, src: &GrantSource, out: &mut Vec<GrantMatch>)
    ensures
        match_views(final(out)@) == match_views(old(out)@) + file_matches(
            arg@,
            src@,
            src@.file_grants,
        ),
{
    let ghost all = src@.file_grants;
    let ghost was = match_views(out@);
    let mut i: usize = 0;
    proof {
        assert(was + file_matches(arg@, src@, all.take(0)) =~= was);
    }
    while i < src.file_grants.len()
        invariant
            all == catalog::grant_views(src.file_grants@),
            i <= src.file_grants@.len(),
            match_views(out@) == was + file_matches(arg@, src@, all.take(i as int)),
        decreases src.file_grants@.len() - i,
    {
        let g = &src.file_grants[i];
        let ghost so_far = match_views(out@);
        proof {
            assert(all.take(i + 1).drop_last() =~= all.take(i as int));
            assert(all.take(i + 1).last() == g@);
        }
        if report::grant_covers_path(g, arg) {
            let m = GrantMatch {
                permission: src.id.clone(),
                target: src.target.clone(),
                kind: GrantKind::File,
                detail: g.path.clone(),
                access: Some(g.access),
                recursive: Some(g.recursive),
                backend: Some(report::grant_backend(g).to_owned()),
                risk: src.risk,
            };
            let ghost one = m@;
            out.push(m);
            proof {
                assert(one == file_match(src@, g@));
                assert(match_views(out@) =~= so_far.push(one));
                assert(match_views(out@) =~= was + file_matches(arg@, src@, all.take(i + 1)));
            }
        }
        i += 1;
    }
    proof {
        assert(all.take(i as int) =~= all);
    }
}

/// Which permissions in `sources` grant access to `arg`, and how.
///
/// A sudo command matches when its binary equals the first word of `arg`, so that a full
/// command and the bare binary are treated alike. A file grant matches when it covers
/// the literal `arg`.
pub fn which_grants(arg: &str, sources: &[GrantSource]) -> (out: Vec<GrantMatch>)
    ensures
        match_views(out@) == matches_of(arg@, source_views(sources@)),
{
    let ghost all = source_views(sources@);
    let mut out: Vec<GrantMatch> = Vec::new();
    let mut i: usize = 0;
    proof {
        assert(match_views(out@) =~= matches_of(arg@, all.take(0)));
    }
    while i < sources.len()
        invariant
            all == source_views(sources@),
            i <= sources@.len(),
            match_views(out@) == matches_of(arg@, all.take(i as int)),
        decreases sources@.len() - i,
    {
        proof {
            assert(all.take(i + 1).drop_last() =~= all.take(i as int));
            assert(all.take(i + 1).last() == sources@[i as int]@);
        }
        push_sudo_matches(arg, &sources[i], &mut out);
        push_file_matches(arg, &sources[i], &mut out);
        i += 1;
    }
    proof {
        assert(all.take(i as int) =~= all);
    }
    out
}

// ---------------------------------------------------------------------------
// Laws
// ---------------------------------------------------------------------------

/// Sources answer for themselves, in order: what two lists of sources grant is what the
/// first grants, then what the second does.
pub proof fn sources_answer_in_order(arg: Seq<char>, a: Seq<SourceView>, b: Seq<SourceView>)
    ensures
        matches_of(arg, a + b) == matches_of(arg, a) + matches_of(arg, b),
    decreases b.len(),
{
    if b.len() == 0 {
        assert(a + b =~= a);
        assert(matches_of(arg, a) + matches_of(arg, b) =~= matches_of(arg, a));
    } else {
        sources_answer_in_order(arg, a, b.drop_last());
        assert((a + b).drop_last() =~= a + b.drop_last());
        assert((a + b).last() == b.last());
        assert(matches_of(arg, a + b) =~= matches_of(arg, a) + matches_of(arg, b));
    }
}

/// A sudo match is on a command of the source whose binary is the one asked for.
pub proof fn sudo_matches_name_the_binary(
    arg: Seq<char>,
    src: SourceView,
    commands: Seq<Seq<char>>,
    i: int,
)
    requires
        0 <= i < sudo_matches(arg, src, commands).len(),
    ensures
        commands.contains(sudo_matches(arg, src, commands)[i].detail),
        covered::binary_of(sudo_matches(arg, src, commands)[i].detail) == Some(asked_binary(arg)),
    decreases commands.len(),
{
    let before = commands.drop_last();
    if i < sudo_matches(arg, src, before).len() {
        sudo_matches_name_the_binary(arg, src, before, i);
        let d = sudo_matches(arg, src, before)[i].detail;
        let k = choose|k: int| 0 <= k < before.len() && before[k] == d;
        assert(commands[k] == d);
    } else {
        assert(commands[commands.len() - 1] == commands.last());
    }
}

/// One command: it matches where its first word is that of the argument (or the argument
/// itself, where that has none), and the match says whose it is and the whole command.
pub proof fn one_command_is_looked_up(
    arg: Seq<char>,
    src: SourceView,
    commands: Seq<Seq<char>>,
    command: Seq<char>,
)
    ensures
        ({
            let asked = match text::first_word(arg) {
                Some(w) => w,
                None => arg,
            };
            let before = sudo_matches(arg, src, commands);
            &&& sudo_matches(arg, src, Seq::<Seq<char>>::empty()).len() == 0
            &&& text::first_word(command) == Some(asked) ==> sudo_matches(
                arg,
                src,
                commands.push(command),
            ) == before.push(
                MatchView {
                    permission: src.id,
                    target: src.target,
                    kind: GrantKind::Sudo,
                    detail: command,
                    access: None,
                    recursive: None,
                    backend: None,
                    risk: src.risk,
                },
            )
            &&& text::first_word(command) != Some(asked) ==> sudo_matches(
                arg,
                src,
                commands.push(command),
            ) == before
        }),
{
    assert(commands.push(command).drop_last() =~= commands);
    assert(commands.push(command).last() == command);
}

/// One file grant: it matches where it covers the argument, and the match says whose it is,
/// the path, the access, whether it is recursive, and what enforces a grant of its shape.
pub proof fn one_grant_is_looked_up(
    arg: Seq<char>,
    src: SourceView,
    grants: Seq<catalog::GrantView>,
    g: catalog::GrantView,
)
    ensures
        ({
            let before = file_matches(arg, src, grants);
            let after = file_matches(arg, src, grants.push(g));
            &&& file_matches(arg, src, Seq::<catalog::GrantView>::empty()).len() == 0
            &&& !g.covers(arg) ==> after == before
            &&& g.covers(arg) ==> after == before.push(
                MatchView {
                    permission: src.id,
                    target: src.target,
                    kind: GrantKind::File,
                    detail: g.path,
                    access: Some(g.access),
                    recursive: Some(g.recursive),
                    backend: Some(
                        match g.shape {
                            catalog::Shape::Dir => "AclBackend"@,
                            catalog::Shape::File => "per-file-capable backend"@,
                            catalog::Shape::Pattern => "pattern-capable backend"@,
                        },
                    ),
                    risk: src.risk,
                },
            )
        }),
{
    assert(grants.push(g).drop_last() =~= grants);
    assert(grants.push(g).last() == g);
}

/// One source answers with all its commands and then with all its file grants.
pub proof fn one_source_answers(arg: Seq<char>, src: SourceView)
    ensures
        matches_of(arg, Seq::<SourceView>::empty()).len() == 0,
        matches_of(arg, seq![src]) == sudo_matches(arg, src, src.sudo) + file_matches(
            arg,
            src,
            src.file_grants,
        ),
        GrantKind::Sudo.text() == "sudo"@,
        GrantKind::File.text() == "file"@,
{
    reveal_with_fuel(matches_of, 2);
    assert(seq![src].drop_last() =~= seq![]);
    assert(seq![src].last() == src);
    let a = sudo_matches(arg, src, src.sudo);
    let b = file_matches(arg, src, src.file_grants);
    assert(Seq::<MatchView>::empty() + a + b =~= a + b);
}

} // verus!
