//! File-access enforcement: the backend interface, the routing of grants to backends,
//! and the commands of the ACL backend.
//!
//! POSIX ACLs hang on the inode, and an edit through rename makes a new one. On a single
//! file that cannot be fixed; on a directory it is, because new files inherit the default
//! ACL. So the ACL backend enforces directory grants only, and a grant of another shape
//! goes to a backend that declares it can enforce it, or is refused before anything is
//! changed.
//!
//! Every command is an explicit list of arguments, never a shell string, and the
//! recursive walk is physical: it does not follow a symlink out of the tree.

use vstd::prelude::*;

use crate::catalog;
use crate::catalog::{Access, ResolvedFileGrant, Shape};
use crate::inspect;
use crate::text;

verus! {

broadcast use vstd::string::group_string_axioms;

// ---------------------------------------------------------------------------
// Principals and capabilities
// ---------------------------------------------------------------------------

/// An ACL principal: the role account or the group a grant is materialized for.
#[derive(Debug, PartialEq, Eq)]
pub enum Principal {
    /// A role account; materialized as `u:<account>`.
    User(String),
    /// A Unix group; materialized as `g:<group>`.
    Group(String),
}

/// The contents of a [`Principal`].
pub enum PrincipalView {
    /// See [`Principal::User`].
    User(Seq<char>),
    /// See [`Principal::Group`].
    Group(Seq<char>),
}

impl View for Principal {
    type V = PrincipalView;

    open spec fn view(&self) -> PrincipalView {
        match self {
            Principal::User(n) => PrincipalView::User(n@),
            Principal::Group(n) => PrincipalView::Group(n@),
        }
    }
}

impl PrincipalView {
    /// The prefix of an ACL entry.
    pub open spec fn prefix(self) -> Seq<char> {
        match self {
            PrincipalView::User(_) => "u"@,
            PrincipalView::Group(_) => "g"@,
        }
    }

    /// The name of the account or group.
    pub open spec fn name(self) -> Seq<char> {
        match self {
            PrincipalView::User(n) => n,
            PrincipalView::Group(n) => n,
        }
    }
}

impl Clone for Principal {
    fn clone(&self) -> (r: Self)
        ensures
            r@ == self@,
    {
        match self {
            Principal::User(n) => Principal::User(n.clone()),
            Principal::Group(n) => Principal::Group(n.clone()),
        }
    }
}

impl Principal {
    /// The prefix of an ACL entry: `u` for a user, `g` for a group.
    pub fn acl_prefix(&self) -> (r: &'static str)
        ensures
            r@ == self@.prefix(),
    {
        match self {
            Principal::User(_) => "u",
            Principal::Group(_) => "g",
        }
    }

    /// The name of the account or group.
    pub fn name(&self) -> (r: &str)
        ensures
            r@ == self@.name(),
    {
        match self {
            Principal::User(n) => n.as_str(),
            Principal::Group(n) => n.as_str(),
        }
    }
}

/// What a backend can enforce. `realtime` and `rewrite_proof` are advisory guarantees,
/// by which nothing is routed.
#[derive(Debug, Clone, Copy, PartialEq, Eq, Structural)]
pub struct Capabilities {
    /// Enforces directory grants.
    pub dir: bool,
    /// Enforces a grant on one concrete file.
    pub per_path: bool,
    /// Enforces a grant on a glob pattern.
    pub pattern: bool,
    /// Re-applies access in real time.
    pub realtime: bool,
    /// New files in a granted tree inherit the access.
    pub rewrite_proof: bool,
}

impl Capabilities {
    /// Whether the capability that a shape requires is there.
    pub open spec fn enforces(self, shape: Shape) -> bool {
        match shape {
            Shape::Dir => self.dir,
            Shape::File => self.per_path,
            Shape::Pattern => self.pattern,
        }
    }
}

/// Whether the capability that a shape requires is there.
pub fn shape_requires(shape: Shape, caps: &Capabilities) -> (r: bool)
    ensures
        r == caps.enforces(shape),
{
    match shape {
        Shape::Dir => caps.dir,
        Shape::File => caps.per_path,
        Shape::Pattern => caps.pattern,
    }
}

/// The capabilities of the ACL backend: directory grants only, rewrite-proof.
pub fn acl_capabilities() -> (r: Capabilities)
    ensures
        r == (Capabilities {
            dir: true,
            per_path: false,
            pattern: false,
            realtime: false,
            rewrite_proof: true,
        }),
{
    Capabilities { dir: true, per_path: false, pattern: false, realtime: false, rewrite_proof: true }
}

// ---------------------------------------------------------------------------
// Errors
// ---------------------------------------------------------------------------

/// Why a command failed: it could not be spawned, or it exited non-zero.
#[derive(Debug, PartialEq, Eq)]
#[non_exhaustive]
pub enum CommandError {
    /// The binary could not be spawned.
    Spawn {
        /// The binary.
        binary: String,
        /// The underlying error.
        source: String,
    },
    /// The binary ran but exited with a non-zero status.
    NonZero {
        /// The binary.
        binary: String,
        /// The exit status, rendered.
        status: String,
        /// The trimmed standard error of the command.
        stderr: String,
    },
}

/// The contents of a [`CommandError`].
pub enum CommandErrorView {
    /// See [`CommandError::Spawn`].
    Spawn { binary: Seq<char>, source: Seq<char> },
    /// See [`CommandError::NonZero`].
    NonZero { binary: Seq<char>, status: Seq<char>, stderr: Seq<char> },
}

impl View for CommandError {
    type V = CommandErrorView;

    open spec fn view(&self) -> CommandErrorView {
        match self {
            CommandError::Spawn { binary, source } => CommandErrorView::Spawn {
                binary: binary@,
                source: source@,
            },
            CommandError::NonZero { binary, status, stderr } => CommandErrorView::NonZero {
                binary: binary@,
                status: status@,
                stderr: stderr@,
            },
        }
    }
}

impl CommandErrorView {
    /// The message of the error.
    pub open spec fn text(self) -> Seq<char> {
        match self {
            CommandErrorView::Spawn { binary, source } => "spawn "@ + binary + " failed: "@
                + source,
            CommandErrorView::NonZero { binary, status, stderr } => binary + " exited "@ + status
                + ": "@ + stderr,
        }
    }
}

impl CommandError {
    /// The message of the error.
    pub fn message(&self) -> (r: String)
        ensures
            r@ == self@.text(),
    {
        match self {
            CommandError::Spawn { binary, source } => {
                let mut m = text::join3("spawn ", binary, " failed: ");
                m.append(source);
                m
            },
            CommandError::NonZero { binary, status, stderr } => {
                let mut m = text::join3(binary, " exited ", status);
                m.append(": ");
                m.append(stderr);
                m
            },
        }
    }
}

/// Errors materializing, revoking, or snapshotting file access.
#[derive(Debug, PartialEq, Eq)]
#[non_exhaustive]
pub enum FileAccessError {
    /// No installed backend can enforce a grant of this shape.
    Unsupported {
        /// The grant path.
        path: String,
        /// The grant's shape.
        shape: Shape,
        /// Explanation and suggestion.
        reason: String,
    },
    /// A `setfacl` or `getfacl` run failed.
    Setfacl {
        /// The path the command targeted.
        path: String,
        /// The failure.
        source: CommandError,
    },
    /// A rollback snapshot could not be written.
    Io {
        /// The path that failed.
        path: String,
        /// The underlying reason.
        reason: String,
    },
    /// The grant path is a symlink, through which no ACL is applied.
    Symlink {
        /// The grant path.
        path: String,
    },
}

/// The contents of a [`FileAccessError`].
pub enum AccessErrorView {
    /// See [`FileAccessError::Unsupported`].
    Unsupported { path: Seq<char>, shape: Shape, reason: Seq<char> },
    /// See [`FileAccessError::Setfacl`].
    Setfacl { path: Seq<char>, source: CommandErrorView },
    /// See [`FileAccessError::Io`].
    Io { path: Seq<char>, reason: Seq<char> },
    /// See [`FileAccessError::Symlink`].
    Symlink { path: Seq<char> },
}

impl View for FileAccessError {
    type V = AccessErrorView;

    open spec fn view(&self) -> AccessErrorView {
        match self {
            FileAccessError::Unsupported { path, shape, reason } => AccessErrorView::Unsupported {
                path: path@,
                shape: *shape,
                reason: reason@,
            },
            FileAccessError::Setfacl { path, source } => AccessErrorView::Setfacl {
                path: path@,
                source: source@,
            },
            FileAccessError::Io { path, reason } => AccessErrorView::Io {
                path: path@,
                reason: reason@,
            },
            FileAccessError::Symlink { path } => AccessErrorView::Symlink { path: path@ },
        }
    }
}

/// The name of a shape.
pub open spec fn shape_name(shape: Shape) -> Seq<char> {
    match shape {
        Shape::Dir => "Dir"@,
        Shape::File => "File"@,
        Shape::Pattern => "Pattern"@,
    }
}

impl AccessErrorView {
    /// The message of the error.
    pub open spec fn text(self) -> Seq<char> {
        match self {
            AccessErrorView::Unsupported { path, shape, reason } => "file grant "@
                + text::debug_text(path) + " ("@ + shape_name(shape)
                + ") is not supported by any installed backend: "@ + reason,
            AccessErrorView::Setfacl { path, source } => "setfacl/getfacl failed for "@
                + text::debug_text(path) + ": "@ + source.text(),
            AccessErrorView::Io { path, reason } => "file-access rollback I/O error at "@ + path
                + ": "@ + reason,
            AccessErrorView::Symlink { path } => "file grant path "@ + text::debug_text(path)
                + " is a symlink; refusing to apply ACLs through it"@,
        }
    }
}

impl FileAccessError {
    /// The message of the error.
    pub fn message(&self) -> (r: String)
        ensures
            r@ == self@.text(),
    {
        match self {
            FileAccessError::Unsupported { path, shape, reason } => {
                let mut m = text::join3("file grant ", &text::debug_string(path), " (");
                m.append(
                    match shape {
                        Shape::Dir => "Dir",
                        Shape::File => "File",
                        Shape::Pattern => "Pattern",
                    },
                );
                m.append(") is not supported by any installed backend: ");
                m.append(reason);
                m
            },
            FileAccessError::Setfacl { path, source } => {
                let mut m = text::join3(
                    "setfacl/getfacl failed for ",
                    &text::debug_string(path),
                    ": ",
                );
                m.append(&source.message());
                m
            },
            FileAccessError::Io { path, reason } => {
                let mut m = text::join3("file-access rollback I/O error at ", path, ": ");
                m.append(reason);
                m
            },
            FileAccessError::Symlink { path } => text::join3(
                "file grant path ",
                &text::debug_string(path),
                " is a symlink; refusing to apply ACLs through it",
            ),
        }
    }
}

// ---------------------------------------------------------------------------
// Arguments
// ---------------------------------------------------------------------------

/// The ACL permissions of an access. The capital `X` grants execution on directories
/// only, and on files that somebody may execute already.
pub open spec fn perm_text(access: Access) -> Seq<char> {
    match access {
        Access::Ro => "r-X"@,
        Access::Rw => "rwX"@,
    }
}

/// The ACL permission string for an [`Access`].
pub fn acl_perm(access: Access) -> (r: &'static str)
    ensures
        r@ == perm_text(access),
{
    match access {
        Access::Ro => "r-X",
        Access::Rw => "rwX",
    }
}

/// The ACL entry that a grant gives a principal.
pub open spec fn grant_entry(p: PrincipalView, access: Access) -> Seq<char> {
    p.prefix() + ":"@ + p.name() + ":"@ + perm_text(access)
}

/// The ACL entry of a principal, to be removed.
pub open spec fn own_entry(p: PrincipalView) -> Seq<char> {
    p.prefix() + ":"@ + p.name()
}

/// A pass over the access ACLs of a tree.
pub open spec fn access_pass(op: Seq<char>, entry: Seq<char>, path: Seq<char>) -> Seq<Seq<char>> {
    seq!["-R"@, "--physical"@, op, entry, path]
}

/// A pass over the default ACLs of a tree.
pub open spec fn default_pass(op: Seq<char>, entry: Seq<char>, path: Seq<char>) -> Seq<Seq<char>> {
    seq!["-d"@, "-R"@, "--physical"@, op, entry, path]
}

/// The two passes of an operation.
pub open spec fn passes(op: Seq<char>, entry: Seq<char>, path: Seq<char>) -> Seq<Seq<Seq<char>>> {
    seq![access_pass(op, entry, path), default_pass(op, entry, path)]
}

/// The contents of a list of argument lists.
pub open spec fn args_views(v: Seq<Vec<String>>) -> Seq<Seq<Seq<char>>> {
    v.map_values(|a: Vec<String>| text::views(a@))
}

/// The two passes of an operation.
fn two_passes(op: &str, entry: &str, path: &str) -> (out: Vec<Vec<String>>)
    ensures
        args_views(out@) == passes(op@, entry@, path@),
{
    let mut first: Vec<String> = Vec::new();
    first.push("-R".to_owned());
    first.push("--physical".to_owned());
    first.push(op.to_owned());
    first.push(entry.to_owned());
    first.push(path.to_owned());
    let mut second: Vec<String> = Vec::new();
    second.push("-d".to_owned());
    second.push("-R".to_owned());
    second.push("--physical".to_owned());
    second.push(op.to_owned());
    second.push(entry.to_owned());
    second.push(path.to_owned());
    proof {
        assert(text::views(first@) =~= access_pass(op@, entry@, path@));
        assert(text::views(second@) =~= default_pass(op@, entry@, path@));
    }
    let mut out: Vec<Vec<String>> = Vec::new();
    out.push(first);
    out.push(second);
    proof {
        assert(args_views(out@) =~= passes(op@, entry@, path@));
    }
    out
}

/// The `setfacl` arguments that materialize one directory grant: the access ACL and the
/// default ACL, which new files inherit. Only the principal's own entry is named.
pub fn setfacl_args(principal: &Principal, grant: &ResolvedFileGrant) -> (out: Vec<Vec<String>>)
    ensures
        args_views(out@) == passes(
            "-m"@,
            grant_entry(principal@, grant@.access),
            grant@.path,
        ),
{
    let mut entry = text::join3(principal.acl_prefix(), ":", principal.name());
    entry.append(":");
    entry.append(acl_perm(grant.access));
    two_passes("-m", &entry, &grant.path)
}

/// The `setfacl` arguments that revoke one directory grant. Only the principal's own
/// entry is removed.
pub fn revoke_args(principal: &Principal, grant: &ResolvedFileGrant) -> (out: Vec<Vec<String>>)
    ensures
        args_views(out@) == passes("-x"@, own_entry(principal@), grant@.path),
{
    let entry = text::join3(principal.acl_prefix(), ":", principal.name());
    two_passes("-x", &entry, &grant.path)
}

/// The arguments that dump the ACLs of a tree under absolute names.
pub open spec fn dump_args(path: Seq<char>) -> Seq<Seq<char>> {
    seq!["--absolute-names"@, "-R"@, path]
}

/// The `getfacl` arguments that snapshot one path for rollback.
pub fn getfacl_args(path: &str) -> (out: Vec<String>)
    ensures
        text::views(out@) == dump_args(path@),
{
    let mut out: Vec<String> = Vec::new();
    out.push("--absolute-names".to_owned());
    out.push("-R".to_owned());
    out.push(path.to_owned());
    proof {
        assert(text::views(out@) =~= dump_args(path@));
    }
    out
}

/// The arguments that restore ACLs from a dump.
pub open spec fn replay_args(file: Seq<char>) -> Seq<Seq<char>> {
    seq!["--restore="@ + file]
}

/// The `setfacl` arguments that restore ACLs from a rollback dump.
pub fn restore_args(rollback_file: &str) -> (out: Vec<String>)
    ensures
        text::views(out@) == replay_args(rollback_file@),
{
    let mut out: Vec<String> = Vec::new();
    out.push(text::join2("--restore=", rollback_file));
    proof {
        assert(text::views(out@) =~= replay_args(rollback_file@));
    }
    out
}

// ---------------------------------------------------------------------------
// Running commands
// ---------------------------------------------------------------------------

/// What a run of a command gave.
pub enum ReplyView {
    /// Its output.
    Output(Seq<u8>),
    /// Its failure.
    Failure(CommandErrorView),
}

/// The contents of what a run returns.
pub open spec fn reply_view(r: Result<Vec<u8>, CommandError>) -> ReplyView {
    match r {
        Ok(out) => ReplyView::Output(out@),
        Err(e) => ReplyView::Failure(e@),
    }
}

/// One run of a command.
#[verifier::ext_equal]
pub struct RunView {
    /// The binary.
    pub binary: Seq<char>,
    /// The arguments.
    pub args: Seq<Seq<char>>,
    /// What the run gave.
    pub reply: ReplyView,
}

/// Runs `setfacl` and `getfacl` for the ACL backend.
pub trait CommandRunner: Sized {
    /// Whether running `binary` with `args` may give this reply and leave the runner in
    /// the state `after`: it may, unless an implementor says otherwise.
    open spec fn may_run(
        &self,
        binary: Seq<char>,
        args: Seq<Seq<char>>,
        reply: ReplyView,
        after: Self,
    ) -> bool {
        true
    }

    /// Run `binary` with `args`; return its standard output on success, and an error
    /// where it cannot be spawned or exits with a non-zero status.
    fn run(&mut self, binary: &str, args: &[String]) -> (r: Result<Vec<u8>, CommandError>)
        ensures
            old(self).may_run(binary@, text::views(args@), reply_view(r), *final(self)),
    ;
}

/// Whether these runs, in order and no others, lead a runner from one state to another.
pub open spec fn ran<R: CommandRunner>(from: R, runs: Seq<RunView>, to: R) -> bool
    decreases runs.len(),
{
    if runs.len() == 0 {
        from == to
    } else {
        let last = runs.last();
        exists|mid: R|
            ran(from, runs.drop_last(), mid) && #[trigger] mid.may_run(
                last.binary,
                last.args,
                last.reply,
                to,
            )
    }
}

/// One more run.
proof fn lemma_ran_more<R: CommandRunner>(
    from: R,
    runs: Seq<RunView>,
    mid: R,
    run: RunView,
    to: R,
)
    requires
        ran(from, runs, mid),
        mid.may_run(run.binary, run.args, run.reply, to),
    ensures
        ran(from, runs.push(run), to),
{
    assert(runs.push(run).drop_last() =~= runs);
    assert(runs.push(run).last() == run);
}

/// Runs after runs.
proof fn lemma_ran_on<R: CommandRunner>(
    from: R,
    runs: Seq<RunView>,
    mid: R,
    more: Seq<RunView>,
    to: R,
)
    requires
        ran(from, runs, mid),
        ran(mid, more, to),
    ensures
        ran(from, runs + more, to),
    decreases more.len(),
{
    if more.len() == 0 {
        assert(runs + more =~= runs);
    } else {
        let last = more.last();
        let near = choose|near: R|
            ran(mid, more.drop_last(), near) && #[trigger] near.may_run(
                last.binary,
                last.args,
                last.reply,
                to,
            );
        lemma_ran_on(from, runs, mid, more.drop_last(), near);
        lemma_ran_more(from, runs + more.drop_last(), near, last, to);
        assert((runs + more.drop_last()).push(last) =~= runs + more);
    }
}

/// How a process ended.
#[derive(Debug, PartialEq, Eq)]
pub enum ProcessEnd {
    /// It could not be spawned, with the error.
    NotSpawned(String),
    /// It exited with status zero, with this standard output.
    Succeeded(Vec<u8>),
    /// It exited otherwise, with the rendered status and this standard error.
    Failed(String, Vec<u8>),
}

/// What a run of `binary` that ended so gives.
pub open spec fn process_reply(binary: Seq<char>, end: ProcessEnd) -> ReplyView {
    match end {
        ProcessEnd::NotSpawned(source) => ReplyView::Failure(
            CommandErrorView::Spawn { binary, source: source@ },
        ),
        ProcessEnd::Succeeded(out) => ReplyView::Output(out@),
        ProcessEnd::Failed(status, err) => ReplyView::Failure(
            CommandErrorView::NonZero {
                binary,
                status: status@,
                stderr: text::trim(text::lossy_text(err@)),
            },
        ),
    }
}

/// Tell what a run of `binary` that ended so gives. The standard error of a failure is
/// read as text and trimmed.
pub fn process_result(binary: &str, end: ProcessEnd) -> (r: Result<Vec<u8>, CommandError>)
    ensures
        reply_view(r) == process_reply(binary@, end),
{
    match end {
        ProcessEnd::NotSpawned(source) => Err(
            CommandError::Spawn { binary: binary.to_owned(), source },
        ),
        ProcessEnd::Succeeded(out) => Ok(out),
        ProcessEnd::Failed(status, err) => {
            let t = text::decode_lossy(err.as_slice());
            let cs = text::chars_of(&t);
            let stderr = text::string_of(text::trim_both(cs.as_slice()));
            Err(CommandError::NonZero { binary: binary.to_owned(), status, stderr })
        },
    }
}

/// One step of the work of a backend.
pub enum StepView {
    /// Run a command for a path.
    Run { binary: Seq<char>, args: Seq<Seq<char>>, path: Seq<char> },
    /// Refuse.
    Refuse(AccessErrorView),
}

/// Whether `runs` and `outcome` are what the steps come to: each step is a run, in order,
/// up to one that fails or to a refusal, and nothing is run after that.
pub open spec fn carried_out(
    steps: Seq<StepView>,
    runs: Seq<RunView>,
    outcome: Option<AccessErrorView>,
) -> bool
    decreases steps.len(),
{
    if steps.len() == 0 {
        runs.len() == 0 && outcome is None
    } else {
        match steps[0] {
            StepView::Refuse(e) => runs.len() == 0 && outcome == Some(e),
            StepView::Run { binary, args, path } => {
                &&& runs.len() > 0
                &&& runs[0].binary == binary
                &&& runs[0].args == args
                &&& match runs[0].reply {
                    ReplyView::Output(_) => carried_out(steps.skip(1), runs.skip(1), outcome),
                    ReplyView::Failure(source) => runs.len() == 1 && outcome == Some(
                        AccessErrorView::Setfacl { path, source },
                    ),
                }
            },
        }
    }
}

/// The runs of passes over a path.
pub open spec fn pass_steps(
    binary: Seq<char>,
    op: Seq<char>,
    entry: Seq<char>,
    path: Seq<char>,
) -> Seq<StepView> {
    seq![
        StepView::Run { binary, args: access_pass(op, entry, path), path },
        StepView::Run { binary, args: default_pass(op, entry, path), path },
    ]
}

/// The steps that materialize one grant. A grant that is not on a directory is refused,
/// and so is one whose path is a symlink.
pub open spec fn grant_steps(
    binary: Seq<char>,
    p: PrincipalView,
    g: catalog::GrantView,
    symlink: bool,
) -> Seq<StepView> {
    if !(g.shape is Dir) {
        seq![
            StepView::Refuse(
                AccessErrorView::Unsupported {
                    path: g.path,
                    shape: g.shape,
                    reason: "AclBackend enforces directory grants only"@,
                },
            ),
        ]
    } else if symlink {
        seq![StepView::Refuse(AccessErrorView::Symlink { path: g.path })]
    } else {
        pass_steps(binary, "-m"@, grant_entry(p, g.access), g.path)
    }
}

/// The steps that materialize the grants from `i` on, in order.
pub open spec fn materialize_steps(
    binary: Seq<char>,
    p: PrincipalView,
    grants: Seq<catalog::GrantView>,
    symlinks: Seq<bool>,
    i: int,
) -> Seq<StepView>
    decreases grants.len() - i,
{
    if i >= grants.len() {
        seq![]
    } else {
        grant_steps(binary, p, grants[i], symlinks[i]) + materialize_steps(
            binary,
            p,
            grants,
            symlinks,
            i + 1,
        )
    }
}

/// The error of an outcome.
pub open spec fn outcome_of(r: Result<(), FileAccessError>) -> Option<AccessErrorView> {
    match r {
        Ok(_) => None,
        Err(e) => Some(e@),
    }
}

/// Whether a runner that went from one state to another carried out the steps, with this
/// outcome, and ran nothing else.
pub open spec fn did<R: CommandRunner>(
    steps: Seq<StepView>,
    from: R,
    to: R,
    outcome: Option<AccessErrorView>,
) -> bool {
    exists|runs: Seq<RunView>| #[trigger]
        ran(from, runs, to) && carried_out(steps, runs, outcome)
}

/// Where the first steps were all run with success, what is left decides.
proof fn lemma_carried_on(
    first: Seq<StepView>,
    rest: Seq<StepView>,
    done: Seq<RunView>,
    runs: Seq<RunView>,
    outcome: Option<AccessErrorView>,
)
    requires
        carried_out(first, done, None),
        carried_out(rest, runs, outcome),
    ensures
        carried_out(first + rest, done + runs, outcome),
    decreases first.len(),
{
    if first.len() == 0 {
        assert(first + rest =~= rest);
        assert(done + runs =~= runs);
    } else {
        let all = first + rest;
        let log = done + runs;
        assert(all[0] == first[0]);
        assert(all.skip(1) =~= first.skip(1) + rest);
        assert(log[0] == done[0]);
        assert(log.skip(1) =~= done.skip(1) + runs);
        lemma_carried_on(first.skip(1), rest, done.skip(1), runs, outcome);
    }
}

/// Where the first steps stopped, the rest is not run.
proof fn lemma_carried_stop(
    first: Seq<StepView>,
    rest: Seq<StepView>,
    runs: Seq<RunView>,
    e: AccessErrorView,
)
    requires
        carried_out(first, runs, Some(e)),
    ensures
        carried_out(first + rest, runs, Some(e)),
    decreases first.len(),
{
    if first.len() > 0 {
        let all = first + rest;
        assert(all[0] == first[0]);
        assert(all.skip(1) =~= first.skip(1) + rest);
        match first[0] {
            StepView::Refuse(_) => {},
            StepView::Run { .. } => {
                if runs[0].reply is Output {
                    lemma_carried_stop(first.skip(1), rest, runs.skip(1), e);
                }
            },
        }
    }
}

// ---------------------------------------------------------------------------
// The ACL backend
// ---------------------------------------------------------------------------

/// The built-in backend: directory grants via POSIX ACLs.
///
/// Reading what a grant path is, and writing the rollback snapshot, is left to the
/// caller.
pub struct AclBackend<R: CommandRunner> {
    /// Runs the commands.
    pub runner: R,
    /// The `setfacl` binary.
    pub setfacl_bin: String,
    /// The `getfacl` binary.
    pub getfacl_bin: String,
    /// The directory of rollback snapshots.
    pub rollback_dir: String,
    /// The snapshot that [`AclBackend::restore`] replays.
    pub last_snapshot: Option<String>,
}

/// The steps that replay the last snapshot, where there is one.
pub open spec fn restore_steps(binary: Seq<char>, last: Option<Seq<char>>) -> Seq<StepView> {
    match last {
        None => seq![],
        Some(file) => seq![StepView::Run { binary, args: replay_args(file), path: file }],
    }
}

/// The file that a snapshot is written to.
pub open spec fn snapshot_path(dir: Seq<char>) -> Seq<char> {
    catalog::join_path(dir, "file-access-acl.snapshot"@)
}

/// The steps that dump the ACLs of the paths from `i` on.
pub open spec fn dump_steps(binary: Seq<char>, paths: Seq<Seq<char>>, i: int) -> Seq<StepView>
    decreases paths.len() - i,
{
    if i >= paths.len() {
        seq![]
    } else {
        seq![StepView::Run { binary, args: dump_args(paths[i]), path: paths[i] }] + dump_steps(
            binary,
            paths,
            i + 1,
        )
    }
}

/// The outputs of the runs, one after the other.
pub open spec fn outputs(runs: Seq<RunView>) -> Seq<u8>
    decreases runs.len(),
{
    if runs.len() == 0 {
        seq![]
    } else {
        outputs(runs.drop_last()) + match runs.last().reply {
            ReplyView::Output(out) => out,
            ReplyView::Failure(_) => seq![],
        }
    }
}

impl<R: CommandRunner> AclBackend<R> {
    /// Construct with an explicit runner, binaries, and rollback directory.
    pub fn new(runner: R, setfacl_bin: &str, getfacl_bin: &str, rollback_dir: &str) -> (r: Self)
        ensures
            r.runner == runner,
            r.setfacl_bin@ == setfacl_bin@,
            r.getfacl_bin@ == getfacl_bin@,
            r.rollback_dir@ == rollback_dir@,
            r.last_snapshot is None,
    {
        AclBackend {
            runner,
            setfacl_bin: setfacl_bin.to_owned(),
            getfacl_bin: getfacl_bin.to_owned(),
            rollback_dir: rollback_dir.to_owned(),
            last_snapshot: None,
        }
    }

    /// The backend of the real binaries on `$PATH`.
    pub fn production(runner: R, rollback_dir: &str) -> (r: Self)
        ensures
            r.runner == runner,
            r.setfacl_bin@ == "setfacl"@,
            r.getfacl_bin@ == "getfacl"@,
            r.rollback_dir@ == rollback_dir@,
            r.last_snapshot is None,
    {
        AclBackend::new(runner, "setfacl", "getfacl", rollback_dir)
    }

    /// The stable name of the backend.
    pub fn name(&self) -> (r: &'static str)
        ensures
            r@ == "acl"@,
    {
        "acl"
    }

    /// What the backend can enforce.
    pub fn capabilities(&self) -> (r: Capabilities)
        ensures
            r == (Capabilities {
                dir: true,
                per_path: false,
                pattern: false,
                realtime: false,
                rewrite_proof: true,
            }),
    {
        acl_capabilities()
    }

    /// Run the two passes of an operation on a path.
    fn run_passes(&mut self, passes: Vec<Vec<String>>, path: &str, Ghost(steps): Ghost<
        Seq<StepView>,
    >) -> (r: Result<(), FileAccessError>)
        requires
            steps.len() == passes@.len(),
            forall|k: int|
                0 <= k < steps.len() ==> #[trigger] steps[k] == (StepView::Run {
                    binary: old(self).setfacl_bin@,
                    args: text::views(passes@[k]@),
                    path: path@,
                }),
        ensures
            did(steps, old(self).runner, final(self).runner, outcome_of(r)),
            final(self).setfacl_bin == old(self).setfacl_bin,
            final(self).getfacl_bin == old(self).getfacl_bin,
            final(self).rollback_dir == old(self).rollback_dir,
            final(self).last_snapshot == old(self).last_snapshot,
    {
        let ghost start = self.runner;
        let ghost mut runs: Seq<RunView> = seq![];
        let mut i: usize = 0;
        proof {
            assert(ran(start, runs, self.runner));
            assert(steps.take(0) =~= Seq::<StepView>::empty());
        }
        while i < passes.len()
            invariant
                steps.len() == passes@.len(),
                forall|k: int|
                    0 <= k < steps.len() ==> #[trigger] steps[k] == (StepView::Run {
                        binary: old(self).setfacl_bin@,
                        args: text::views(passes@[k]@),
                        path: path@,
                    }),
                start == old(self).runner,
                i <= passes@.len(),
                ran(start, runs, self.runner),
                carried_out(steps.take(i as int), runs, None),
                self.setfacl_bin == old(self).setfacl_bin,
                self.getfacl_bin == old(self).getfacl_bin,
                self.rollback_dir == old(self).rollback_dir,
                self.last_snapshot == old(self).last_snapshot,
            decreases passes@.len() - i,
        {
            let ghost before = self.runner;
            let reply = self.runner.run(&self.setfacl_bin, passes[i].as_slice());
            proof {
                let run = RunView {
                    binary: self.setfacl_bin@,
                    args: text::views(passes@[i as int]@),
                    reply: reply_view(reply),
                };
                let step = seq![steps[i as int]];
                lemma_ran_more(start, runs, before, run, self.runner);
                assert(runs.push(run) =~= runs + seq![run]);
                assert(steps.take(i + 1) =~= steps.take(i as int) + step);
                assert(steps =~= steps.take(i + 1) + steps.skip(i + 1));
                assert(seq![run].skip(1) =~= Seq::<RunView>::empty());
                assert(step.skip(1) =~= Seq::<StepView>::empty());
                if reply is Ok {
                    assert(carried_out(step.skip(1), seq![run].skip(1), None));
                    assert(carried_out(step, seq![run], None));
                    lemma_carried_on(steps.take(i as int), step, runs, seq![run], None);
                } else {
                    let e = AccessErrorView::Setfacl { path: path@, source: reply->Err_0@ };
                    assert(carried_out(step, seq![run], Some(e)));
                    lemma_carried_on(steps.take(i as int), step, runs, seq![run], Some(e));
                    lemma_carried_stop(
                        steps.take(i + 1),
                        steps.skip(i + 1),
                        runs + seq![run],
                        e,
                    );
                }
                runs = runs.push(run);
            }
            match reply {
                Ok(_) => {},
                Err(source) => {
                    return Err(FileAccessError::Setfacl { path: path.to_owned(), source });
                },
            }
            i += 1;
        }
        proof {
            assert(steps.take(i as int) =~= steps);
        }
        Ok(())
    }

    /// Materialize one grant, whose path is a symlink or not. Nothing is run for one that
    /// is refused.
    pub fn materialize_grant(
        &mut self,
        principal: &Principal,
        grant: &ResolvedFileGrant,
        symlink: bool,
    ) -> (r: Result<(), FileAccessError>)
        ensures
            did(
                grant_steps(old(self).setfacl_bin@, principal@, grant@, symlink),
                old(self).runner,
                final(self).runner,
                outcome_of(r),
            ),
            final(self).setfacl_bin == old(self).setfacl_bin,
            final(self).getfacl_bin == old(self).getfacl_bin,
            final(self).rollback_dir == old(self).rollback_dir,
            final(self).last_snapshot == old(self).last_snapshot,
    {
        proof {
            assert(ran(self.runner, Seq::<RunView>::empty(), self.runner));
        }
        match grant.shape {
            Shape::Dir => {},
            _ => {
                return Err(
                    FileAccessError::Unsupported {
                        path: grant.path.clone(),
                        shape: grant.shape,
                        reason: "AclBackend enforces directory grants only".to_owned(),
                    },
                );
            },
        }
        if symlink {
            return Err(FileAccessError::Symlink { path: grant.path.clone() });
        }
        let args = setfacl_args(principal, grant);
        let ghost steps = grant_steps(self.setfacl_bin@, principal@, grant@, symlink);
        proof {
            let views = args_views(args@);
            assert(views.len() == 2);
            assert(args@.len() == 2);
            assert(views[0] == text::views(args@[0]@));
            assert(views[1] == text::views(args@[1]@));
        }
        self.run_passes(args, &grant.path, Ghost(steps))
    }

    /// Materialize the grants in order, up to the first that is refused or fails.
    /// `symlinks` says of each grant whether its path is a symlink: a symlinked root
    /// would be resolved before the walk, and point the change at another tree.
    pub fn materialize(
        &mut self,
        principal: &Principal,
        grants: &[ResolvedFileGrant],
        symlinks: &[bool],
    ) -> (r: Result<(), FileAccessError>)
        requires
            symlinks@.len() == grants@.len(),
        ensures
            did(
                materialize_steps(
                    old(self).setfacl_bin@,
                    principal@,
                    catalog::grant_views(grants@),
                    symlinks@,
                    0,
                ),
                old(self).runner,
                final(self).runner,
                outcome_of(r),
            ),
            final(self).setfacl_bin == old(self).setfacl_bin,
            final(self).getfacl_bin == old(self).getfacl_bin,
            final(self).rollback_dir == old(self).rollback_dir,
            final(self).last_snapshot == old(self).last_snapshot,
    {
        let ghost start = self.runner;
        let ghost bin = self.setfacl_bin@;
        let ghost all = catalog::grant_views(grants@);
        let ghost whole = materialize_steps(bin, principal@, all, symlinks@, 0);
        let ghost mut done: Seq<StepView> = seq![];
        let ghost mut runs: Seq<RunView> = seq![];
        let mut i: usize = 0;
        proof {
            assert(ran(start, runs, self.runner));
            assert(done + whole =~= whole);
        }
        while i < grants.len()
            invariant
                symlinks@.len() == grants@.len(),
                start == old(self).runner,
                bin == old(self).setfacl_bin@,
                self.setfacl_bin == old(self).setfacl_bin,
                self.getfacl_bin == old(self).getfacl_bin,
                self.rollback_dir == old(self).rollback_dir,
                self.last_snapshot == old(self).last_snapshot,
                all == catalog::grant_views(grants@),
                whole == materialize_steps(bin, principal@, all, symlinks@, 0),
                i <= grants@.len(),
                whole == done + materialize_steps(
                    bin,
                    principal@,
                    all,
                    symlinks@,
                    i as int,
                ),
                ran(start, runs, self.runner),
                carried_out(done, runs, None),
            decreases grants@.len() - i,
        {
            let ghost before = self.runner;
            let r = self.materialize_grant(principal, &grants[i], symlinks[i]);
            proof {
                let step = grant_steps(bin, principal@, all[i as int], symlinks@[i as int]);
                let rest = materialize_steps(bin, principal@, all, symlinks@, i + 1);
                assert(all[i as int] == grants@[i as int]@);
                let more = choose|more: Seq<RunView>| #[trigger]
                    ran(before, more, self.runner) && carried_out(step, more, outcome_of(r));
                lemma_ran_on(start, runs, before, more, self.runner);
                lemma_carried_on(done, step, runs, more, outcome_of(r));
                assert(whole =~= (done + step) + rest);
                if r is Err {
                    lemma_carried_stop(done + step, rest, runs + more, r->Err_0@);
                }
                done = done + step;
                runs = runs + more;
            }
            match r {
                Ok(()) => {},
                Err(e) => {
                    return Err(e);
                },
            }
            i += 1;
        }
        proof {
            assert(whole =~= done);
        }
        Ok(())
    }

    /// Remove the principal's own entry for one grant.
    pub fn revoke(&mut self, principal: &Principal, grant: &ResolvedFileGrant) -> (r: Result<
        (),
        FileAccessError,
    >)
        ensures
            did(
                pass_steps(
                    old(self).setfacl_bin@,
                    "-x"@,
                    own_entry(principal@),
                    grant@.path,
                ),
                old(self).runner,
                final(self).runner,
                outcome_of(r),
            ),
            final(self).setfacl_bin == old(self).setfacl_bin,
            final(self).getfacl_bin == old(self).getfacl_bin,
            final(self).rollback_dir == old(self).rollback_dir,
            final(self).last_snapshot == old(self).last_snapshot,
    {
        let args = revoke_args(principal, grant);
        let ghost steps = pass_steps(
            self.setfacl_bin@,
            "-x"@,
            own_entry(principal@),
            grant@.path,
        );
        proof {
            let views = args_views(args@);
            assert(views.len() == 2);
            assert(args@.len() == 2);
            assert(views[0] == text::views(args@[0]@));
            assert(views[1] == text::views(args@[1]@));
        }
        self.run_passes(args, &grant.path, Ghost(steps))
    }

    /// The file that a snapshot is written to.
    pub fn snapshot_file(&self) -> (r: String)
        ensures
            r@ == snapshot_path(self.rollback_dir@),
    {
        catalog::joined_path(&self.rollback_dir, "file-access-acl.snapshot")
    }

    /// Dump the ACLs of the paths into one snapshot, to be written by the caller.
    pub fn snapshot(&mut self, paths: &[String]) -> (r: Result<Vec<u8>, FileAccessError>)
        ensures
            exists|runs: Seq<RunView>|
                {
                    &&& #[trigger] ran(old(self).runner, runs, final(self).runner)
                    &&& carried_out(
                        dump_steps(old(self).getfacl_bin@, text::views(paths@), 0),
                        runs,
                        match r {
                            Ok(_) => None,
                            Err(e) => Some(e@),
                        },
                    )
                    &&& r matches Ok(dump) ==> dump@ == outputs(runs)
                },
            final(self).setfacl_bin == old(self).setfacl_bin,
            final(self).getfacl_bin == old(self).getfacl_bin,
            final(self).rollback_dir == old(self).rollback_dir,
            final(self).last_snapshot == old(self).last_snapshot,
    {
        let ghost start = self.runner;
        let ghost bin = self.getfacl_bin@;
        let ghost all = text::views(paths@);
        let ghost whole = dump_steps(bin, all, 0);
        let ghost mut done: Seq<StepView> = seq![];
        let ghost mut runs: Seq<RunView> = seq![];
        let mut dump: Vec<u8> = Vec::new();
        let mut i: usize = 0;
        proof {
            assert(ran(start, runs, self.runner));
            assert(done + whole =~= whole);
            assert(dump@ =~= outputs(runs));
        }
        while i < paths.len()
            invariant
                start == old(self).runner,
                bin == old(self).getfacl_bin@,
                self.setfacl_bin == old(self).setfacl_bin,
                self.getfacl_bin == old(self).getfacl_bin,
                self.rollback_dir == old(self).rollback_dir,
                self.last_snapshot == old(self).last_snapshot,
                all == text::views(paths@),
                whole == dump_steps(bin, all, 0),
                i <= paths@.len(),
                whole == done + dump_steps(bin, all, i as int),
                ran(start, runs, self.runner),
                carried_out(done, runs, None),
                dump@ == outputs(runs),
            decreases paths@.len() - i,
        {
            let path = &paths[i];
            let ghost before = self.runner;
            let args = getfacl_args(path);
            let reply = self.runner.run(&self.getfacl_bin, args.as_slice());
            proof {
                let run = RunView {
                    binary: bin,
                    args: dump_args(path@),
                    reply: reply_view(reply),
                };
                let step = seq![
                    StepView::Run {
                        binary: bin,
                        args: dump_args(all[i as int]),
                        path: all[i as int],
                    },
                ];
                let rest = dump_steps(bin, all, i + 1);
                assert(all[i as int] == path@);
                lemma_ran_more(start, runs, before, run, self.runner);
                assert(runs.push(run) =~= runs + seq![run]);
                assert(runs.push(run).drop_last() =~= runs);
                assert(seq![run].skip(1) =~= Seq::<RunView>::empty());
                assert(step.skip(1) =~= Seq::<StepView>::empty());
                assert(whole =~= (done + step) + rest);
                if reply is Ok {
                    assert(carried_out(step.skip(1), seq![run].skip(1), None));
                    assert(carried_out(step, seq![run], None));
                    lemma_carried_on(done, step, runs, seq![run], None);
                } else {
                    let e = AccessErrorView::Setfacl { path: path@, source: reply->Err_0@ };
                    assert(carried_out(step, seq![run], Some(e)));
                    lemma_carried_on(done, step, runs, seq![run], Some(e));
                    lemma_carried_stop(done + step, rest, runs + seq![run], e);
                }
                done = done + step;
                runs = runs.push(run);
            }
            match reply {
                Ok(mut out) => {
                    let ghost was = dump@;
                    let ghost more = out@;
                    dump.append(&mut out);
                    proof {
                        assert(dump@ =~= was + more);
                    }
                },
                Err(source) => {
                    return Err(FileAccessError::Setfacl { path: path.clone(), source });
                },
            }
            i += 1;
        }
        proof {
            assert(whole =~= done);
        }
        Ok(dump)
    }

    /// Take note of the snapshot, from the outcomes of making its directory and of
    /// writing it.
    pub fn keep_snapshot(&mut self, made_dir: Result<(), String>, written: Result<(), String>) -> (r:
        Result<(), FileAccessError>)
        ensures
            match (made_dir, written) {
                (Err(reason), _) => outcome_of(r) == Some(
                    AccessErrorView::Io { path: old(self).rollback_dir@, reason: reason@ },
                ) && *final(self) == *old(self),
                (Ok(_), Err(reason)) => outcome_of(r) == Some(
                    AccessErrorView::Io {
                        path: snapshot_path(old(self).rollback_dir@),
                        reason: reason@,
                    },
                ) && *final(self) == *old(self),
                (Ok(_), Ok(_)) => r is Ok && inspect::opt_text(final(self).last_snapshot) == Some(
                    snapshot_path(old(self).rollback_dir@),
                ) && *final(self) == (AclBackend {
                    last_snapshot: final(self).last_snapshot,
                    ..*old(self)
                }),
            },
    {
        match made_dir {
            Ok(()) => {},
            Err(reason) => {
                return Err(FileAccessError::Io { path: self.rollback_dir.clone(), reason });
            },
        }
        let file = self.snapshot_file();
        match written {
            Ok(()) => {},
            Err(reason) => {
                return Err(FileAccessError::Io { path: file, reason });
            },
        }
        self.last_snapshot = Some(file);
        Ok(())
    }

    /// Restore access from the last snapshot. Without one nothing is run: the changing
    /// phase never came.
    pub fn restore(&mut self) -> (r: Result<(), FileAccessError>)
        ensures
            did(
                match old(self).last_snapshot {
                    None => seq![],
                    Some(file) => seq![
                        StepView::Run {
                            binary: old(self).setfacl_bin@,
                            args: replay_args(file@),
                            path: file@,
                        },
                    ],
                },
                old(self).runner,
                final(self).runner,
                outcome_of(r),
            ),
            did(
                restore_steps(old(self).setfacl_bin@, inspect::opt_text(old(self).last_snapshot)),
                old(self).runner,
                final(self).runner,
                outcome_of(r),
            ),
            final(self).setfacl_bin == old(self).setfacl_bin,
            final(self).getfacl_bin == old(self).getfacl_bin,
            final(self).rollback_dir == old(self).rollback_dir,
            final(self).last_snapshot == old(self).last_snapshot,
    {
        let ghost start = self.runner;
        let ghost none = Seq::<RunView>::empty();
        proof {
            assert(ran(start, none, start));
        }
        let file = match &self.last_snapshot {
            None => {
                return Ok(());
            },
            Some(f) => f.clone(),
        };
        let args = restore_args(&file);
        let reply = self.runner.run(&self.setfacl_bin, args.as_slice());
        proof {
            let run = RunView {
                binary: self.setfacl_bin@,
                args: replay_args(file@),
                reply: reply_view(reply),
            };
            let step = seq![
                StepView::Run {
                    binary: self.setfacl_bin@,
                    args: replay_args(file@),
                    path: file@,
                },
            ];
            lemma_ran_more(start, none, start, run, self.runner);
            assert(none.push(run) =~= seq![run]);
            assert(seq![run].skip(1) =~= Seq::<RunView>::empty());
            assert(step.skip(1) =~= Seq::<StepView>::empty());
            assert(carried_out(step.skip(1), seq![run].skip(1), None));
        }
        match reply {
            Ok(_) => Ok(()),
            Err(source) => Err(FileAccessError::Setfacl { path: file, source }),
        }
    }
}

// ---------------------------------------------------------------------------
// Backends and routing
// ---------------------------------------------------------------------------

/// The enforcement interface. A backend declares its [`Capabilities`] and materializes,
/// revokes, snapshots and restores file access for a single principal.
///
/// Implementors touch only the principal's own access entry.
pub trait FileAccessBackend {
    /// Whether this backend may declare these capabilities: it may, unless an implementor
    /// says otherwise.
    open spec fn may_declare(&self, caps: Capabilities) -> bool {
        true
    }

    /// Stable backend name for reporting.
    fn name(&self) -> &str;

    /// What this backend can enforce.
    fn capabilities(&self) -> (r: Capabilities)
        ensures
            self.may_declare(r),
    ;

    /// Materialize the given grants for `principal`.
    fn materialize(&mut self, principal: &Principal, grants: &[ResolvedFileGrant]) -> Result<
        (),
        FileAccessError,
    >;

    /// Remove `principal`'s own access entry for one grant.
    fn revoke(&mut self, principal: &Principal, grant: &ResolvedFileGrant) -> Result<
        (),
        FileAccessError,
    >;

    /// Snapshot the current access of `paths`.
    fn snapshot(&mut self, paths: &[String]) -> Result<(), FileAccessError>;

    /// Restore access from the most recent snapshot.
    fn restore(&mut self) -> Result<(), FileAccessError>;
}

/// The first capabilities of the list, from `i` on, that enforce a shape.
pub open spec fn first_capable(caps: Seq<Capabilities>, shape: Shape, i: int) -> Option<int>
    decreases caps.len() - i,
{
    if i >= caps.len() {
        None
    } else if caps[i].enforces(shape) {
        Some(i)
    } else {
        first_capable(caps, shape, i + 1)
    }
}

/// What to do about a grant that no backend enforces.
pub open spec fn suggestion_text(shape: Shape) -> Seq<char> {
    match shape {
        Shape::File =>
            "no backend provides per-file enforcement; widen the grant to its containing directory (which the open ACL backend enforces rewrite-proof), or install a per-file-capable backend"@,
        Shape::Pattern =>
            "no backend provides pattern enforcement; install a pattern-capable backend (watcher / MAC labels), or replace the glob with a directory grant"@,
        Shape::Dir => "no backend provides directory enforcement; install the ACL backend"@,
    }
}

/// The suggestion for a grant that no backend enforces.
pub fn unsupported_suggestion(shape: Shape) -> (r: String)
    ensures
        r@ == suggestion_text(shape),
{
    match shape {
        Shape::File =>
            "no backend provides per-file enforcement; widen the grant to its containing directory (which the open ACL backend enforces rewrite-proof), or install a per-file-capable backend".to_owned(),
        Shape::Pattern =>
            "no backend provides pattern enforcement; install a pattern-capable backend (watcher / MAC labels), or replace the glob with a directory grant".to_owned(),
        Shape::Dir =>
            "no backend provides directory enforcement; install the ACL backend".to_owned(),
    }
}

/// The first grant, from `i` on, that no capabilities of the list enforce.
pub open spec fn first_unroutable(
    grants: Seq<catalog::GrantView>,
    caps: Seq<Capabilities>,
    i: int,
) -> Option<catalog::GrantView>
    decreases grants.len() - i,
{
    if i >= grants.len() {
        None
    } else if first_capable(caps, grants[i].shape, 0) is None {
        Some(grants[i])
    } else {
        first_unroutable(grants, caps, i + 1)
    }
}

/// Whether `r` is the routing of the grants by these capabilities: each grant goes to the
/// first that enforces it, and the first grant that none enforces is an error.
pub open spec fn is_routing(
    grants: Seq<ResolvedFileGrant>,
    caps: Seq<Capabilities>,
    r: Result<Vec<(usize, &ResolvedFileGrant)>, FileAccessError>,
) -> bool {
    match r {
        Ok(routed) => {
            &&& first_unroutable(catalog::grant_views(grants), caps, 0) is None
            &&& routed@.len() == grants.len()
            &&& forall|i: int|
                0 <= i < grants.len() ==> (#[trigger] routed@[i]).1 == &grants[i]
                    && first_capable(caps, grants[i].shape, 0) == Some(routed@[i].0 as int)
        },
        Err(e) => first_unroutable(catalog::grant_views(grants), caps, 0) matches Some(g) && e@
            == (AccessErrorView::Unsupported {
            path: g.path,
            shape: g.shape,
            reason: suggestion_text(g.shape),
        }),
    }
}

/// The first capabilities of the list that enforce a shape.
fn choose_backend(shape: Shape, caps: &[Capabilities]) -> (r: Option<usize>)
    ensures
        match r {
            Some(k) => first_capable(caps@, shape, 0) == Some(k as int),
            None => first_capable(caps@, shape, 0) is None,
        },
{
    let mut i: usize = 0;
    while i < caps.len()
        invariant
            i <= caps@.len(),
            first_capable(caps@, shape, 0) == first_capable(caps@, shape, i as int),
        decreases caps@.len() - i,
    {
        if shape_requires(shape, &caps[i]) {
            return Some(i);
        }
        i += 1;
    }
    None
}

/// Route each grant by the capabilities that the backends declared.
pub fn route_by_capabilities<'a>(
    grants: &'a [ResolvedFileGrant],
    caps: &[Capabilities],
) -> (r: Result<Vec<(usize, &'a ResolvedFileGrant)>, FileAccessError>)
    ensures
        is_routing(grants@, caps@, r),
{
    let ghost all = catalog::grant_views(grants@);
    let mut routed: Vec<(usize, &'a ResolvedFileGrant)> = Vec::new();
    let mut i: usize = 0;
    while i < grants.len()
        invariant
            all == catalog::grant_views(grants@),
            i <= grants@.len(),
            first_unroutable(all, caps@, 0) == first_unroutable(all, caps@, i as int),
            routed@.len() == i,
            forall|k: int|
                0 <= k < i ==> (#[trigger] routed@[k]).1 == &grants@[k] && first_capable(
                    caps@,
                    grants@[k].shape,
                    0,
                ) == Some(routed@[k].0 as int),
        decreases grants@.len() - i,
    {
        let grant = &grants[i];
        proof {
            assert(all[i as int] == grant@);
        }
        match choose_backend(grant.shape, caps) {
            Some(k) => {
                routed.push((k, grant));
            },
            None => {
                return Err(
                    FileAccessError::Unsupported {
                        path: grant.path.clone(),
                        shape: grant.shape,
                        reason: unsupported_suggestion(grant.shape),
                    },
                );
            },
        }
        i += 1;
    }
    Ok(routed)
}

/// Whether the backends may declare these capabilities, each its own.
pub open spec fn declared(
    backends: Seq<&dyn FileAccessBackend>,
    caps: Seq<Capabilities>,
) -> bool {
    &&& caps.len() == backends.len()
    &&& forall|k: int| 0 <= k < caps.len() ==> backends[k].may_declare(#[trigger] caps[k])
}

/// Route each grant to the first backend whose capabilities cover its shape.
///
/// Fails closed: where no backend covers some grant, the first such grant is an error,
/// before any backend is asked to change anything.
pub fn route_grants<'a>(
    grants: &'a [ResolvedFileGrant],
    backends: &[&dyn FileAccessBackend],
) -> (r: Result<Vec<(usize, &'a ResolvedFileGrant)>, FileAccessError>)
    ensures
        exists|caps: Seq<Capabilities>| #[trigger]
            declared(backends@, caps) && is_routing(grants@, caps, r),
{
    let mut caps: Vec<Capabilities> = Vec::new();
    let mut i: usize = 0;
    while i < backends.len()
        invariant
            i <= backends@.len(),
            caps@.len() == i,
            forall|k: int| 0 <= k < i ==> backends@[k].may_declare(#[trigger] caps@[k]),
        decreases backends@.len() - i,
    {
        caps.push(backends[i].capabilities());
        i += 1;
    }
    proof {
        assert(declared(backends@, caps@));
    }
    route_by_capabilities(grants, caps.as_slice())
}

/// A backend that records every call and reports configurable capabilities.
#[derive(Debug, Clone)]
pub struct FakeBackend {
    /// The reported name.
    pub name: String,
    /// The reported capabilities.
    pub caps: Capabilities,
    /// Every call, in order.
    pub calls: Vec<FakeCall>,
}

/// A recorded [`FakeBackend`] call.
#[derive(Debug, Clone, PartialEq, Eq)]
pub enum FakeCall {
    /// `materialize(principal, grants)`.
    Materialize {
        /// The principal passed.
        principal: Principal,
        /// The paths of the grants passed.
        paths: Vec<String>,
    },
    /// `revoke(principal, grant)`.
    Revoke {
        /// The principal passed.
        principal: Principal,
        /// The grant path passed.
        path: String,
    },
    /// `snapshot(paths)`.
    Snapshot {
        /// The paths passed.
        paths: Vec<String>,
    },
    /// `restore()`.
    Restore,
}

/// The contents of a [`FakeCall`].
pub enum CallView {
    /// See [`FakeCall::Materialize`].
    Materialize { principal: PrincipalView, paths: Seq<Seq<char>> },
    /// See [`FakeCall::Revoke`].
    Revoke { principal: PrincipalView, path: Seq<char> },
    /// See [`FakeCall::Snapshot`].
    Snapshot { paths: Seq<Seq<char>> },
    /// See [`FakeCall::Restore`].
    Restore,
}

impl View for FakeCall {
    type V = CallView;

    open spec fn view(&self) -> CallView {
        match self {
            FakeCall::Materialize { principal, paths } => CallView::Materialize {
                principal: principal@,
                paths: text::views(paths@),
            },
            FakeCall::Revoke { principal, path } => CallView::Revoke {
                principal: principal@,
                path: path@,
            },
            FakeCall::Snapshot { paths } => CallView::Snapshot { paths: text::views(paths@) },
            FakeCall::Restore => CallView::Restore,
        }
    }
}

/// The contents of a list of calls.
pub open spec fn call_views(v: Seq<FakeCall>) -> Seq<CallView> {
    v.map_values(|c: FakeCall| c@)
}

/// The paths of a list of grants.
pub open spec fn grant_paths(grants: Seq<catalog::GrantView>) -> Seq<Seq<char>> {
    grants.map_values(|g: catalog::GrantView| g.path)
}

impl FakeBackend {
    /// A fake with the given name and capabilities.
    pub fn new(name: &str, caps: Capabilities) -> (r: Self)
        ensures
            r.name@ == name@,
            r.caps == caps,
            call_views(r.calls@) == Seq::<CallView>::empty(),
    {
        let r = FakeBackend { name: name.to_owned(), caps, calls: Vec::new() };
        proof {
            assert(call_views(r.calls@) =~= Seq::<CallView>::empty());
        }
        r
    }

    /// Record a call.
    fn record(&mut self, call: FakeCall)
        ensures
            call_views(final(self).calls@) == call_views(old(self).calls@).push(call@),
            final(self).name == old(self).name,
            final(self).caps == old(self).caps,
    {
        let ghost was = call_views(self.calls@);
        let ghost one = call@;
        self.calls.push(call);
        proof {
            assert(call_views(self.calls@) =~= was.push(one));
        }
    }
}

impl FileAccessBackend for FakeBackend {
    open spec fn may_declare(&self, caps: Capabilities) -> bool {
        caps == self.caps
    }

    fn name(&self) -> (r: &str)
        ensures
            r@ == self.name@,
    {
        self.name.as_str()
    }

    fn capabilities(&self) -> (r: Capabilities) {
        self.caps
    }

    fn materialize(&mut self, principal: &Principal, grants: &[ResolvedFileGrant]) -> (r: Result<
        (),
        FileAccessError,
    >)
        ensures
            r is Ok,
            call_views(final(self).calls@) == call_views(old(self).calls@).push(
                CallView::Materialize {
                    principal: principal@,
                    paths: grant_paths(catalog::grant_views(grants@)),
                },
            ),
            final(self).name == old(self).name,
            final(self).caps == old(self).caps,
    {
        let ghost all = grant_paths(catalog::grant_views(grants@));
        let mut paths: Vec<String> = Vec::new();
        let mut i: usize = 0;
        proof {
            assert(text::views(paths@) =~= all.take(0));
        }
        while i < grants.len()
            invariant
                all == grant_paths(catalog::grant_views(grants@)),
                *self == *old(self),
                i <= grants@.len(),
                text::views(paths@) == all.take(i as int),
            decreases grants@.len() - i,
        {
            let ghost was = text::views(paths@);
            paths.push(grants[i].path.clone());
            proof {
                assert(text::views(paths@) =~= was.push(all[i as int]));
                assert(all.take(i + 1) =~= was.push(all[i as int]));
            }
            i += 1;
        }
        proof {
            assert(all.take(i as int) =~= all);
        }
        self.record(FakeCall::Materialize { principal: principal.clone(), paths });
        Ok(())
    }

    fn revoke(&mut self, principal: &Principal, grant: &ResolvedFileGrant) -> (r: Result<
        (),
        FileAccessError,
    >)
        ensures
            r is Ok,
            call_views(final(self).calls@) == call_views(old(self).calls@).push(
                CallView::Revoke { principal: principal@, path: grant@.path },
            ),
            final(self).name == old(self).name,
            final(self).caps == old(self).caps,
    {
        self.record(FakeCall::Revoke { principal: principal.clone(), path: grant.path.clone() });
        Ok(())
    }

    fn snapshot(&mut self, paths: &[String]) -> (r: Result<(), FileAccessError>)
        ensures
            r is Ok,
            call_views(final(self).calls@) == call_views(old(self).calls@).push(
                CallView::Snapshot { paths: text::views(paths@) },
            ),
            final(self).name == old(self).name,
            final(self).caps == old(self).caps,
    {
        self.record(FakeCall::Snapshot { paths: text::copy_strings(paths) });
        Ok(())
    }

    fn restore(&mut self) -> (r: Result<(), FileAccessError>)
        ensures
            r is Ok,
            call_views(final(self).calls@) == call_views(old(self).calls@).push(
                CallView::Restore,
            ),
            final(self).name == old(self).name,
            final(self).caps == old(self).caps,
    {
        self.record(FakeCall::Restore);
        Ok(())
    }
}

// ---------------------------------------------------------------------------
// Laws
// ---------------------------------------------------------------------------

/// From `i` on, the first capable entry is capable and none before it is.
proof fn lemma_first_capable(caps: Seq<Capabilities>, shape: Shape, i: int)
    requires
        0 <= i,
    ensures
        match first_capable(caps, shape, i) {
            Some(k) => {
                &&& i <= k < caps.len()
                &&& caps[k].enforces(shape)
                &&& forall|j: int| i <= j < k ==> !(#[trigger] caps[j]).enforces(shape)
            },
            None => forall|j: int| i <= j < caps.len() ==> !(#[trigger] caps[j]).enforces(shape),
        },
    decreases caps.len() - i,
{
    if i < caps.len() && !caps[i].enforces(shape) {
        lemma_first_capable(caps, shape, i + 1);
    }
}

/// A grant is routed to a backend that enforces its shape, and to the first such one. It
/// is routed nowhere only where no backend enforces it.
pub proof fn routed_backends_are_capable(caps: Seq<Capabilities>, shape: Shape)
    ensures
        match first_capable(caps, shape, 0) {
            Some(k) => {
                &&& 0 <= k < caps.len()
                &&& caps[k].enforces(shape)
                &&& forall|j: int| 0 <= j < k ==> !(#[trigger] caps[j]).enforces(shape)
            },
            None => forall|j: int| 0 <= j < caps.len() ==> !(#[trigger] caps[j]).enforces(shape),
        },
{
    lemma_first_capable(caps, shape, 0);
}

/// Whether some capabilities of the list enforce a shape.
pub open spec fn enforceable_by(caps: Seq<Capabilities>, shape: Shape) -> bool {
    exists|k: int| 0 <= k < caps.len() && (#[trigger] caps[k]).enforces(shape)
}

/// From `i` on, routing fails exactly where some grant has no backend.
proof fn lemma_first_unroutable(
    grants: Seq<catalog::GrantView>,
    caps: Seq<Capabilities>,
    i: int,
)
    requires
        0 <= i,
    ensures
        first_unroutable(grants, caps, i) is None <==> forall|j: int|
            i <= j < grants.len() ==> enforceable_by(caps, (#[trigger] grants[j]).shape),
    decreases grants.len() - i,
{
    if i < grants.len() {
        lemma_first_capable(caps, grants[i].shape, 0);
        lemma_first_unroutable(grants, caps, i + 1);
    }
}

/// Routing fails closed: it succeeds only where every grant has a backend that enforces
/// it, so that no grant is silently enforced more weakly than it asks.
pub proof fn routing_fails_closed(
    grants: Seq<ResolvedFileGrant>,
    caps: Seq<Capabilities>,
    r: Result<Vec<(usize, &ResolvedFileGrant)>, FileAccessError>,
)
    requires
        is_routing(grants, caps, r),
    ensures
        r is Ok <==> forall|j: int|
            0 <= j < grants.len() ==> enforceable_by(
                caps,
                (#[trigger] catalog::grant_views(grants)[j]).shape,
            ),
{
    lemma_first_unroutable(catalog::grant_views(grants), caps, 0);
}

/// A revocation names the very entry that materializing set, without the permissions:
/// the principal's own, and no other.
pub proof fn revocation_names_the_granted_entry(p: PrincipalView, access: Access)
    ensures
        grant_entry(p, access) == own_entry(p) + ":"@ + perm_text(access),
{
}

/// Every pass is physical, so that a symlink in the tree does not lead out of it, and
/// names one entry and one path.
pub proof fn passes_are_physical(op: Seq<char>, entry: Seq<char>, path: Seq<char>)
    ensures
        passes(op, entry, path).len() == 2,
        forall|k: int|
            0 <= k < 2 ==> {
                let args = #[trigger] passes(op, entry, path)[k];
                &&& args.contains("--physical"@)
                &&& args[args.len() - 3] == op
                &&& args[args.len() - 2] == entry
                &&& args.last() == path
            },
{
    assert(access_pass(op, entry, path)[1] == "--physical"@);
    assert(default_pass(op, entry, path)[2] == "--physical"@);
}

/// A grant that is refused runs nothing: on a file or a pattern, or through a symlink. The
/// runner is left as it was.
pub proof fn refused_grants_run_nothing<R: CommandRunner>(
    binary: Seq<char>,
    p: PrincipalView,
    g: catalog::GrantView,
    symlink: bool,
    from: R,
    to: R,
    outcome: Option<AccessErrorView>,
)
    requires
        !(g.shape is Dir) || symlink,
        did(grant_steps(binary, p, g, symlink), from, to, outcome),
    ensures
        from == to,
        outcome is Some,
{
}

/// The work succeeds only where every step is a run that was made and that succeeded.
pub proof fn success_means_every_step_ran(steps: Seq<StepView>, runs: Seq<RunView>)
    requires
        carried_out(steps, runs, None),
    ensures
        runs.len() == steps.len(),
        forall|k: int|
            0 <= k < steps.len() ==> {
                &&& (#[trigger] steps[k]) is Run
                &&& runs[k].binary == steps[k]->binary
                &&& runs[k].args == steps[k]->args
                &&& runs[k].reply is Output
            },
    decreases steps.len(),
{
    if steps.len() > 0 {
        success_means_every_step_ran(steps.skip(1), runs.skip(1));
        assert forall|k: int| 0 <= k < steps.len() implies {
            &&& (#[trigger] steps[k]) is Run
            &&& runs[k].binary == steps[k]->binary
            &&& runs[k].args == steps[k]->args
            &&& runs[k].reply is Output
        } by {
            if k > 0 {
                assert(steps[k] == steps.skip(1)[k - 1]);
                assert(runs[k] == runs.skip(1)[k - 1]);
            }
        }
    }
}

/// A run that fails is the last one: nothing is run after a failure.
pub proof fn nothing_runs_after_a_failure(
    steps: Seq<StepView>,
    runs: Seq<RunView>,
    outcome: Option<AccessErrorView>,
)
    requires
        carried_out(steps, runs, outcome),
    ensures
        runs.len() <= steps.len(),
        forall|k: int| 0 <= k < runs.len() - 1 ==> (#[trigger] runs[k]).reply is Output,
    decreases steps.len(),
{
    if steps.len() > 0 && runs.len() > 0 && runs[0].reply is Output {
        nothing_runs_after_a_failure(steps.skip(1), runs.skip(1), outcome);
        assert forall|k: int| 0 <= k < runs.len() - 1 implies (
        #[trigger] runs[k]).reply is Output by {
            if k > 0 {
                assert(runs[k] == runs.skip(1)[k - 1]);
            }
        }
    }
}

/// What a shape takes: a directory grant the first capability, a file grant the second and a
/// pattern grant the third; the other two enforce nothing.
pub proof fn shapes_take_their_capability(caps: Capabilities)
    ensures
        caps.enforces(Shape::Dir) <==> caps.dir,
        caps.enforces(Shape::File) <==> caps.per_path,
        caps.enforces(Shape::Pattern) <==> caps.pattern,
{
}

/// The entries of a principal: `u` or `g`, its name, and for a grant the permissions, with
/// write for an access that writes.
pub proof fn entries_of_principals(name: Seq<char>)
    ensures
        own_entry(PrincipalView::User(name)) == seq!['u', ':'] + name,
        own_entry(PrincipalView::Group(name)) == seq!['g', ':'] + name,
        grant_entry(PrincipalView::User(name), Access::Ro) == seq!['u', ':'] + name + seq![
            ':',
            'r',
            '-',
            'X',
        ],
        grant_entry(PrincipalView::User(name), Access::Rw) == seq!['u', ':'] + name + seq![
            ':',
            'r',
            'w',
            'X',
        ],
        grant_entry(PrincipalView::Group(name), Access::Ro) == seq!['g', ':'] + name + seq![
            ':',
            'r',
            '-',
            'X',
        ],
        grant_entry(PrincipalView::Group(name), Access::Rw) == seq!['g', ':'] + name + seq![
            ':',
            'r',
            'w',
            'X',
        ],
{
    reveal_strlit("u");
    reveal_strlit("g");
    reveal_strlit(":");
    reveal_strlit("r-X");
    reveal_strlit("rwX");
    let u = PrincipalView::User(name);
    let g = PrincipalView::Group(name);
    assert(own_entry(u) =~= seq!['u', ':'] + name);
    assert(own_entry(g) =~= seq!['g', ':'] + name);
    assert(grant_entry(u, Access::Ro) =~= seq!['u', ':'] + name + seq![':', 'r', '-', 'X']);
    assert(grant_entry(u, Access::Rw) =~= seq!['u', ':'] + name + seq![':', 'r', 'w', 'X']);
    assert(grant_entry(g, Access::Ro) =~= seq!['g', ':'] + name + seq![':', 'r', '-', 'X']);
    assert(grant_entry(g, Access::Rw) =~= seq!['g', ':'] + name + seq![':', 'r', 'w', 'X']);
}

/// The arguments: a recursive pass over the access ACLs and one over the default ACLs, a
/// recursive dump under absolute names, and a replay of a file.
pub proof fn arguments_of_commands(op: Seq<char>, entry: Seq<char>, path: Seq<char>)
    ensures
        passes(op, entry, path) == seq![
            seq!["-R"@, "--physical"@, op, entry, path],
            seq!["-d"@, "-R"@, "--physical"@, op, entry, path],
        ],
        dump_args(path) == seq!["--absolute-names"@, "-R"@, path],
        replay_args(path) == seq!["--restore="@ + path],
        snapshot_path(path) == catalog::join_path(path, "file-access-acl.snapshot"@),
{
}

/// The steps of one grant: on a directory that is no symlink the two passes that set the
/// principal's entry, for that path; else a refusal that says why.
pub proof fn steps_of_a_grant(
    binary: Seq<char>,
    p: PrincipalView,
    g: catalog::GrantView,
    symlink: bool,
)
    ensures
        ({
            let steps = grant_steps(binary, p, g, symlink);
            let args = passes("-m"@, grant_entry(p, g.access), g.path);
            &&& g.shape is Dir && !symlink ==> steps == seq![
                StepView::Run { binary, args: args[0], path: g.path },
                StepView::Run { binary, args: args[1], path: g.path },
            ]
            &&& g.shape is Dir && symlink ==> steps == seq![
                StepView::Refuse(AccessErrorView::Symlink { path: g.path }),
            ]
            &&& !(g.shape is Dir) ==> steps == seq![
                StepView::Refuse(
                    AccessErrorView::Unsupported {
                        path: g.path,
                        shape: g.shape,
                        reason: "AclBackend enforces directory grants only"@,
                    },
                ),
            ]
        }),
{
}

/// The steps of an operation on a path are its two passes.
pub proof fn steps_of_an_operation(
    binary: Seq<char>,
    op: Seq<char>,
    entry: Seq<char>,
    path: Seq<char>,
)
    ensures
        pass_steps(binary, op, entry, path) == seq![
            StepView::Run { binary, args: passes(op, entry, path)[0], path },
            StepView::Run { binary, args: passes(op, entry, path)[1], path },
        ],
{
}

/// Every grant is materialized, in order: where all are on directories that are no symlinks,
/// there are two runs for each, and they are those of that grant.
pub proof fn every_grant_is_materialized(
    binary: Seq<char>,
    p: PrincipalView,
    grants: Seq<catalog::GrantView>,
    symlinks: Seq<bool>,
    i: int,
    k: int,
)
    requires
        0 <= i <= k < grants.len(),
        symlinks.len() == grants.len(),
        forall|j: int| i <= j < grants.len() ==> (#[trigger] grants[j]).shape is Dir,
        forall|j: int| i <= j < grants.len() ==> !(#[trigger] symlinks[j]),
    ensures
        ({
            let steps = materialize_steps(binary, p, grants, symlinks, i);
            let args = passes("-m"@, grant_entry(p, grants[k].access), grants[k].path);
            &&& steps.len() == 2 * (grants.len() - i)
            &&& steps[2 * (k - i)]
                == (StepView::Run { binary, args: args[0], path: grants[k].path })
            &&& steps[2 * (k - i) + 1] == (StepView::Run {
                binary,
                args: args[1],
                path: grants[k].path,
            })
        }),
    decreases grants.len() - i,
{
    let first = grant_steps(binary, p, grants[i], symlinks[i]);
    let rest = materialize_steps(binary, p, grants, symlinks, i + 1);
    assert(grants[i].shape is Dir);
    assert(!symlinks[i]);
    steps_of_a_grant(binary, p, grants[i], symlinks[i]);
    assert(first.len() == 2);
    if i + 1 < grants.len() {
        if k > i {
            every_grant_is_materialized(binary, p, grants, symlinks, i + 1, k);
            assert((first + rest)[2 * (k - i)] == rest[2 * (k - i) - 2]);
            assert((first + rest)[2 * (k - i) + 1] == rest[2 * (k - i) - 1]);
        } else {
            every_grant_is_materialized(binary, p, grants, symlinks, i + 1, i + 1);
        }
    } else {
        assert(rest =~= seq![]);
    }
    if k == i {
        assert((first + rest)[0] == first[0]);
        assert((first + rest)[1] == first[1]);
    }
}

/// Grants are materialized up to the first that is refused: its refusal stands after the
/// runs of those before it.
pub proof fn a_refusal_stands_in_its_place(
    binary: Seq<char>,
    p: PrincipalView,
    grants: Seq<catalog::GrantView>,
    symlinks: Seq<bool>,
    i: int,
    k: int,
)
    requires
        0 <= i <= k < grants.len(),
        symlinks.len() == grants.len(),
        forall|j: int| i <= j < k ==> (#[trigger] grants[j]).shape is Dir,
        forall|j: int| i <= j < k ==> !(#[trigger] symlinks[j]),
        !(grants[k].shape is Dir) || symlinks[k],
    ensures
        ({
            let steps = materialize_steps(binary, p, grants, symlinks, i);
            &&& steps.len() > 2 * (k - i)
            &&& steps[2 * (k - i)] is Refuse
            &&& steps[2 * (k - i)] == grant_steps(binary, p, grants[k], symlinks[k])[0]
        }),
    decreases k - i,
{
    let first = grant_steps(binary, p, grants[i], symlinks[i]);
    let rest = materialize_steps(binary, p, grants, symlinks, i + 1);
    steps_of_a_grant(binary, p, grants[i], symlinks[i]);
    if i < k {
        assert(grants[i].shape is Dir);
        assert(!symlinks[i]);
        a_refusal_stands_in_its_place(binary, p, grants, symlinks, i + 1, k);
        assert((first + rest)[2 * (k - i)] == rest[2 * (k - i) - 2]);
    } else {
        assert((first + rest)[0] == first[0]);
    }
}

/// Every path is dumped, in order, by a run of its own.
pub proof fn every_path_is_dumped(binary: Seq<char>, paths: Seq<Seq<char>>, i: int)
    requires
        0 <= i <= paths.len(),
    ensures
        dump_steps(binary, paths, i).len() == paths.len() - i,
        forall|k: int|
            i <= k < paths.len() ==> (#[trigger] dump_steps(binary, paths, i)[k - i])
                == (StepView::Run { binary, args: dump_args(paths[k]), path: paths[k] }),
    decreases paths.len() - i,
{
    if i < paths.len() {
        every_path_is_dumped(binary, paths, i + 1);
        let rest = dump_steps(binary, paths, i + 1);
        let all = dump_steps(binary, paths, i);
        assert forall|k: int| i <= k < paths.len() implies (#[trigger] all[k - i])
            == (StepView::Run { binary, args: dump_args(paths[k]), path: paths[k] }) by {
            if k > i {
                assert(all[k - i] == rest[k - (i + 1)]);
            }
        }
    }
}

/// What the runs put out is kept in order.
pub proof fn outputs_add_up(a: Seq<RunView>, b: Seq<RunView>)
    ensures
        outputs(Seq::<RunView>::empty()).len() == 0,
        outputs(a + b) == outputs(a) + outputs(b),
    decreases b.len(),
{
    if b.len() == 0 {
        assert(a + b =~= a);
        assert(outputs(a) + outputs(b) =~= outputs(a));
    } else {
        outputs_add_up(a, b.drop_last());
        assert((a + b).drop_last() =~= a + b.drop_last());
        assert((a + b).last() == b.last());
        assert(outputs(a + b) =~= outputs(a) + outputs(b));
    }
}

/// One run puts out what it gave, and nothing where it failed.
pub proof fn one_run_puts_out(run: RunView)
    ensures
        run.reply matches ReplyView::Output(out) ==> outputs(seq![run]) == out,
        run.reply is Failure ==> outputs(seq![run]).len() == 0,
{
    reveal_with_fuel(outputs, 2);
    assert(seq![run].drop_last() =~= seq![]);
    assert(seq![run].last() == run);
    if let ReplyView::Output(out) = run.reply {
        assert(Seq::<u8>::empty() + out =~= out);
    }
}

/// What a process that ended gives: its output where it succeeded, and else a failure that
/// names the binary and says why: the error of spawning it, or the status and the trimmed
/// standard error.
pub proof fn ended_processes(binary: Seq<char>, why: String, out: Vec<u8>)
    ensures
        process_reply(binary, ProcessEnd::Succeeded(out)) == ReplyView::Output(out@),
        process_reply(binary, ProcessEnd::NotSpawned(why)) == ReplyView::Failure(
            CommandErrorView::Spawn { binary, source: why@ },
        ),
        process_reply(binary, ProcessEnd::Failed(why, out)) == ReplyView::Failure(
            CommandErrorView::NonZero {
                binary,
                status: why@,
                stderr: text::trim(text::lossy_text(out@)),
            },
        ),
{
}

/// Work that does not succeed stops at one step: a refusal, which is the error and of which
/// nothing is run, or a run that failed, whose failure is the error, for the path of that
/// step. The steps before it were run and succeeded.
pub proof fn failure_means_one_step_failed(
    steps: Seq<StepView>,
    runs: Seq<RunView>,
    e: AccessErrorView,
)
    requires
        carried_out(steps, runs, Some(e)),
    ensures
        exists|k: int|
            {
                &&& 0 <= k < steps.len()
                &&& match #[trigger] steps[k] {
                    StepView::Refuse(why) => runs.len() == k && e == why,
                    StepView::Run { binary, args, path } => {
                        &&& runs.len() == k + 1
                        &&& runs[k].binary == binary
                        &&& runs[k].args == args
                        &&& runs[k].reply matches ReplyView::Failure(source) && e
                            == (AccessErrorView::Setfacl { path, source })
                    },
                }
                &&& forall|j: int|
                    0 <= j < k ==> {
                        &&& (#[trigger] steps[j]) is Run
                        &&& runs[j].binary == steps[j]->binary
                        &&& runs[j].args == steps[j]->args
                        &&& runs[j].reply is Output
                    }
            },
    decreases steps.len(),
{
    match steps[0] {
        StepView::Refuse(_) => {
            assert(steps[0] is Refuse);
        },
        StepView::Run { binary, args, path } => {
            match runs[0].reply {
                ReplyView::Output(_) => {
                    let rest = steps.skip(1);
                    let more = runs.skip(1);
                    failure_means_one_step_failed(rest, more, e);
                    let k = choose|k: int|
                        {
                            &&& 0 <= k < rest.len()
                            &&& match #[trigger] rest[k] {
                                StepView::Refuse(why) => more.len() == k && e == why,
                                StepView::Run { binary, args, path } => {
                                    &&& more.len() == k + 1
                                    &&& more[k].binary == binary
                                    &&& more[k].args == args
                                    &&& more[k].reply matches ReplyView::Failure(source) && e
                                        == (AccessErrorView::Setfacl { path, source })
                                },
                            }
                            &&& forall|j: int|
                                0 <= j < k ==> {
                                    &&& (#[trigger] rest[j]) is Run
                                    &&& more[j].binary == rest[j]->binary
                                    &&& more[j].args == rest[j]->args
                                    &&& more[j].reply is Output
                                }
                        };
                    assert(steps[k + 1] == rest[k]);
                    assert forall|j: int| 0 <= j < k + 1 implies {
                        &&& (#[trigger] steps[j]) is Run
                        &&& runs[j].binary == steps[j]->binary
                        &&& runs[j].args == steps[j]->args
                        &&& runs[j].reply is Output
                    } by {
                        if j > 0 {
                            assert(steps[j] == rest[j - 1]);
                            assert(runs[j] == more[j - 1]);
                        }
                    }
                    if steps[k + 1] is Run {
                        assert(runs[k + 1] == more[k]);
                    }
                },
                ReplyView::Failure(_) => {
                    assert(steps[0] is Run);
                },
            }
        },
    }
}

/// The place of the grant that routing fails on.
proof fn lemma_unroutable_place(
    grants: Seq<catalog::GrantView>,
    caps: Seq<Capabilities>,
    i: int,
) -> (k: int)
    requires
        0 <= i,
        first_unroutable(grants, caps, i) is Some,
    ensures
        i <= k < grants.len(),
        first_unroutable(grants, caps, i) == Some(grants[k]),
        first_capable(caps, grants[k].shape, 0) is None,
        forall|j: int|
            i <= j < k ==> first_capable(caps, (#[trigger] grants[j]).shape, 0) is Some,
    decreases grants.len() - i,
{
    if first_capable(caps, grants[i].shape, 0) is None {
        i
    } else {
        lemma_unroutable_place(grants, caps, i + 1)
    }
}

/// The grant that routing fails on is the first that no backend enforces.
pub proof fn the_first_unroutable_grant(grants: Seq<catalog::GrantView>, caps: Seq<Capabilities>)
    ensures
        first_unroutable(grants, caps, 0) matches Some(g) ==> exists|k: int|
            {
                &&& 0 <= k < grants.len()
                &&& (#[trigger] grants[k]) == g
                &&& !enforceable_by(caps, g.shape)
                &&& forall|j: int|
                    0 <= j < k ==> enforceable_by(caps, (#[trigger] grants[j]).shape)
            },
{
    if first_unroutable(grants, caps, 0) is Some {
        let k = lemma_unroutable_place(grants, caps, 0);
        lemma_first_capable(caps, grants[k].shape, 0);
        assert(!enforceable_by(caps, grants[k].shape));
        assert forall|j: int| 0 <= j < k implies enforceable_by(
            caps,
            (#[trigger] grants[j]).shape,
        ) by {
            lemma_first_capable(caps, grants[j].shape, 0);
        }
    }
}

/// What to do about a grant that no backend enforces, by its shape.
pub proof fn suggestions_by_shape()
    ensures
        suggestion_text(Shape::Dir)
            == "no backend provides directory enforcement; install the ACL backend"@,
        suggestion_text(Shape::File)
            == "no backend provides per-file enforcement; widen the grant to its containing directory (which the open ACL backend enforces rewrite-proof), or install a per-file-capable backend"@,
        suggestion_text(Shape::Pattern)
            == "no backend provides pattern enforcement; install a pattern-capable backend (watcher / MAC labels), or replace the glob with a directory grant"@,
{
}

/// What a routing says: of every grant, in order, the first backend that enforces it, or the
/// error about the first grant that none enforces.
pub proof fn routings_by_grant(
    grants: Seq<ResolvedFileGrant>,
    caps: Seq<Capabilities>,
    r: Result<Vec<(usize, &ResolvedFileGrant)>, FileAccessError>,
)
    requires
        is_routing(grants, caps, r),
    ensures
        match r {
            Ok(routed) => {
                &&& routed@.len() == grants.len()
                &&& forall|i: int|
                    0 <= i < grants.len() ==> {
                        let b = (#[trigger] routed@[i]).0 as int;
                        &&& routed@[i].1 == &grants[i]
                        &&& 0 <= b < caps.len()
                        &&& caps[b].enforces(grants[i].shape)
                        &&& forall|j: int| 0 <= j < b ==> !(#[trigger] caps[j]).enforces(
                            grants[i].shape,
                        )
                    }
            },
            Err(e) => exists|k: int|
                {
                    &&& 0 <= k < grants.len()
                    &&& !enforceable_by(caps, (#[trigger] grants[k]).shape)
                    &&& e@ == (AccessErrorView::Unsupported {
                        path: grants[k].path@,
                        shape: grants[k].shape,
                        reason: suggestion_text(grants[k].shape),
                    })
                },
        },
{
    match r {
        Ok(routed) => {
            assert forall|i: int| 0 <= i < grants.len() implies {
                let b = (#[trigger] routed@[i]).0 as int;
                &&& routed@[i].1 == &grants[i]
                &&& 0 <= b < caps.len()
                &&& caps[b].enforces(grants[i].shape)
                &&& forall|j: int| 0 <= j < b ==> !(#[trigger] caps[j]).enforces(grants[i].shape)
            } by {
                lemma_first_capable(caps, grants[i].shape, 0);
            }
        },
        Err(e) => {
            let views = catalog::grant_views(grants);
            let k = lemma_unroutable_place(views, caps, 0);
            lemma_first_capable(caps, views[k].shape, 0);
            assert(views[k] == grants[k]@);
        },
    }
}

/// The messages name what failed and why.
pub proof fn messages_of_access_errors(
    path: Seq<char>,
    reason: Seq<char>,
    status: Seq<char>,
    binary: Seq<char>,
    source: CommandErrorView,
)
    ensures
        (CommandErrorView::Spawn { binary, source: reason }).text() == "spawn "@ + binary
            + " failed: "@ + reason,
        (CommandErrorView::NonZero { binary, status, stderr: reason }).text() == binary
            + " exited "@ + status + ": "@ + reason,
        (AccessErrorView::Unsupported { path, shape: Shape::File, reason }).text() == "file grant "@
            + text::debug_text(path) + " ("@ + "File"@
            + ") is not supported by any installed backend: "@ + reason,
        (AccessErrorView::Setfacl { path, source }).text() == "setfacl/getfacl failed for "@
            + text::debug_text(path) + ": "@ + source.text(),
        (AccessErrorView::Io { path, reason }).text() == "file-access rollback I/O error at "@
            + path + ": "@ + reason,
        (AccessErrorView::Symlink { path }).text() == "file grant path "@ + text::debug_text(path)
            + " is a symlink; refusing to apply ACLs through it"@,
        shape_name(Shape::Dir) == "Dir"@,
        shape_name(Shape::Pattern) == "Pattern"@,
{
}

/// A runner that ran nothing is as it was; one that ran once went by what that run may do;
/// and runs come one after the other.
pub proof fn runs_lead_from_state_to_state<R: CommandRunner>(
    from: R,
    a: Seq<RunView>,
    b: Seq<RunView>,
    run: RunView,
    to: R,
)
    ensures
        ran(from, Seq::<RunView>::empty(), to) <==> from == to,
        ran(from, seq![run], to) <==> from.may_run(run.binary, run.args, run.reply, to),
        ran(from, a + b, to) <==> exists|mid: R|
            #[trigger] ran(from, a, mid) && ran(mid, b, to),
{
    reveal_with_fuel(ran, 2);
    assert(seq![run].drop_last() =~= seq![]);
    assert(seq![run].last() == run);
    if from.may_run(run.binary, run.args, run.reply, to) {
        assert(ran(from, seq![run].drop_last(), from));
    }
    if exists|mid: R| #[trigger] ran(from, a, mid) && ran(mid, b, to) {
        let mid = choose|mid: R| #[trigger] ran(from, a, mid) && ran(mid, b, to);
        lemma_ran_on(from, a, mid, b, to);
    }
    if ran(from, a + b, to) {
        lemma_ran_apart(from, a, b, to);
    }
}

/// Runs can be taken apart.
proof fn lemma_ran_apart<R: CommandRunner>(from: R, a: Seq<RunView>, b: Seq<RunView>, to: R)
    requires
        ran(from, a + b, to),
    ensures
        exists|mid: R| #[trigger] ran(from, a, mid) && ran(mid, b, to),
    decreases b.len(),
{
    if b.len() == 0 {
        assert(a + b =~= a);
        assert(ran(from, a, to) && ran(to, b, to));
    } else {
        let all = a + b;
        let last = all.last();
        assert(all.drop_last() =~= a + b.drop_last());
        let near = choose|near: R|
            ran(from, all.drop_last(), near) && #[trigger] near.may_run(
                last.binary,
                last.args,
                last.reply,
                to,
            );
        lemma_ran_apart(from, a, b.drop_last(), near);
        let mid = choose|mid: R| #[trigger] ran(from, a, mid) && ran(mid, b.drop_last(), near);
        lemma_ran_more(mid, b.drop_last(), near, last, to);
        assert(b.drop_last().push(last) =~= b);
        assert(ran(from, a, mid) && ran(mid, b, to));
    }
}

/// Restoring replays the last snapshot, by one run and nothing else; without a snapshot
/// nothing is run.
pub proof fn restoring_replays_the_last_snapshot(binary: Seq<char>, file: Seq<char>)
    ensures
        restore_steps(binary, None).len() == 0,
        restore_steps(binary, Some(file)) == seq![
            StepView::Run { binary, args: seq!["--restore="@ + file], path: file },
        ],
{
}

} // verus!
