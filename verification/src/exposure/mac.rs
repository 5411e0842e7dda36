//! A neutral interface for refining a discretionary verdict against mandatory access
//! control.
//!
//! The audit computes discretionary access (mode, owner, POSIX ACL) and reports every
//! verdict as an upper bound. A [`MacProvider`] is the seam through which a backend
//! folds in the mandatory layer. The core knows nothing of labels, lattices or ordering:
//! [`MacLabelId`] and [`MacContextId`] are opaque interned handles that are only ever
//! handed back to the provider, and [`MacProvider::permits`] is the single black box
//! that carries the mandatory rule.
//!
//! [`NullMacProvider`] is the default: it labels nothing, permits everything, and says
//! through [`MacProvider::is_active`] that no real backend is there.

use vstd::prelude::*;

use crate::text;

verus! {

broadcast use vstd::string::group_string_axioms;

/// The mandatory access control system a [`MacProvider`] refines the verdict against.
#[derive(Debug, Clone, Copy, PartialEq, Eq, Hash, Structural)]
#[non_exhaustive]
pub enum MacSystem {
    /// Astra Linux PARSEC (integrity and confidentiality lattice).
    Parsec,
    /// `SELinux` type-enforcement (unordered domains and types).
    Selinux,
}

impl MacSystem {
    /// The token of a system.
    pub open spec fn text(self) -> Seq<char> {
        match self {
            MacSystem::Parsec => "parsec"@,
            MacSystem::Selinux => "selinux"@,
        }
    }

    /// The stable lowercase token (`parsec`, `selinux`).
    pub fn as_str(self) -> (r: &'static str)
        ensures
            r@ == self.text(),
    {
        match self {
            MacSystem::Parsec => "parsec",
            MacSystem::Selinux => "selinux",
        }
    }
}

/// The mandatory-access refinement attached to a finding when a real provider is active.
///
/// For one principal, `reachable_in` is the non-empty set of contexts in which the
/// access holds. In the posture map there is no principal, and `reachable_in` is empty.
#[derive(Debug, Clone, PartialEq, Eq)]
pub struct MacFinding {
    /// The system whose rule refined or labeled the object.
    pub system: MacSystem,
    /// The rendered object label, when the provider labels the object.
    pub object_label: Option<String>,
    /// The rendered principal contexts in which the access holds.
    pub reachable_in: Vec<String>,
}

/// Which access a mandatory check is asked about.
#[derive(Debug, Clone, Copy, PartialEq, Eq, Hash, Structural)]
#[non_exhaustive]
pub enum MacAccessKind {
    /// Read the object's contents.
    Read,
    /// Write or modify the object.
    Write,
    /// Execute the object.
    Execute,
}

impl MacAccessKind {
    /// The token of a kind.
    pub open spec fn text(self) -> Seq<char> {
        match self {
            MacAccessKind::Read => "read"@,
            MacAccessKind::Write => "write"@,
            MacAccessKind::Execute => "execute"@,
        }
    }

    /// The stable lowercase token (`read`, `write`, `execute`).
    pub fn as_str(self) -> (r: &'static str)
        ensures
            r@ == self.text(),
    {
        match self {
            MacAccessKind::Read => "read",
            MacAccessKind::Write => "write",
            MacAccessKind::Execute => "execute",
        }
    }
}

/// An opaque handle to an object's mandatory label: an index into the backend's own
/// interning table, without meaning to anybody else.
#[derive(Debug, Clone, Copy, PartialEq, Eq, Hash, Structural)]
pub struct MacLabelId(u32);

impl MacLabelId {
    /// The interning index.
    pub closed spec fn index(self) -> u32 {
        self.0
    }

    /// Mint a label handle from a backend interning index.
    pub fn new(index: u32) -> (r: Self)
        ensures
            r.index() == index,
    {
        MacLabelId(index)
    }

    /// The raw interning index. This is not a rendered label.
    pub fn as_u32(self) -> (r: u32)
        ensures
            r == self.index(),
    {
        self.0
    }

    /// Two handles with one index are the same handle.
    pub proof fn index_identifies(self, other: MacLabelId)
        ensures
            self.index() == other.index() <==> self == other,
    {
    }
}

/// An opaque handle to a principal's mandatory context, with the contract of
/// [`MacLabelId`]. It carries no order.
#[derive(Debug, Clone, Copy, PartialEq, Eq, Hash, Structural)]
pub struct MacContextId(u32);

impl MacContextId {
    /// The interning index.
    pub closed spec fn index(self) -> u32 {
        self.0
    }

    /// Mint a context handle from a backend interning index.
    pub fn new(index: u32) -> (r: Self)
        ensures
            r.index() == index,
    {
        MacContextId(index)
    }

    /// The raw interning index. This is not a rendered context.
    pub fn as_u32(self) -> (r: u32)
        ensures
            r == self.index(),
    {
        self.0
    }

    /// Two handles with one index are the same handle.
    pub proof fn index_identifies(self, other: MacContextId)
        ensures
            self.index() == other.index() <==> self == other,
    {
    }
}

/// The refinement interface the exposure audit composes with.
///
/// Implementors are read-only: evaluating a provider never changes anything.
pub trait MacProvider {
    /// The mandatory system. Only meaningful when [`MacProvider::is_active`] is true.
    fn system(&self) -> MacSystem;

    /// The object's label handle, or `None` when the object is unlabeled or the backend
    /// has no data for the path.
    fn object_label(&self, path: &str) -> Option<MacLabelId>;

    /// The set of contexts the principal `uid` may assume. Order carries no meaning.
    fn principal_contexts(&self, uid: u32) -> Vec<MacContextId>;

    /// Whether `ctx` is permitted `access` to `label` under the backend's rule.
    fn permits(&self, ctx: MacContextId, label: MacLabelId, access: MacAccessKind) -> bool;

    /// A human-facing rendering of a context handle.
    fn render_context(&self, ctx: MacContextId) -> String;

    /// A human-facing rendering of a label handle.
    fn render_label(&self, label: MacLabelId) -> String;

    /// Whether a real backend is active: true unless an implementor says otherwise.
    fn is_active(&self) -> (r: bool)
        default_ensures
            r,
    {
        true
    }
}

/// The default provider: neutral, so the audit's output is unchanged.
#[derive(Debug, Clone, Copy, Default)]
pub struct NullMacProvider;

impl MacProvider for NullMacProvider {
    // `is_active` is false, so nobody consults this value.
    fn system(&self) -> (r: MacSystem)
        ensures
            r == MacSystem::Parsec,
    {
        MacSystem::Parsec
    }

    fn object_label(&self, _path: &str) -> (r: Option<MacLabelId>)
        ensures
            r is None,
    {
        None
    }

    fn principal_contexts(&self, _uid: u32) -> (r: Vec<MacContextId>)
        ensures
            r@.len() == 0,
    {
        Vec::new()
    }

    fn permits(&self, _ctx: MacContextId, _label: MacLabelId, _access: MacAccessKind) -> (r: bool)
        ensures
            r,
    {
        true
    }

    fn render_context(&self, _ctx: MacContextId) -> (r: String)
        ensures
            r@ == ""@,
    {
        "".to_owned()
    }

    fn render_label(&self, _label: MacLabelId) -> (r: String)
        ensures
            r@ == ""@,
    {
        "".to_owned()
    }

    fn is_active(&self) -> (r: bool)
        ensures
            !r,
    {
        false
    }
}

// ---------------------------------------------------------------------------
// A provider in memory
// ---------------------------------------------------------------------------

/// A configurable [`MacProvider`] in memory, which stands in for a real backend.
///
/// A `(context, label, access)` triple that was never set is denied.
#[derive(Debug, Clone)]
pub struct FakeMacProvider {
    system: MacSystem,
    labels: Vec<(String, MacLabelId)>,
    contexts: Vec<(u32, MacContextId)>,
    permits: Vec<PermitRule>,
    label_render: Vec<(MacLabelId, String)>,
    context_render: Vec<(MacContextId, String)>,
}

/// One entry of a permit table.
#[derive(Debug, Clone, Copy, PartialEq, Eq, Structural)]
pub struct PermitRule {
    /// The context.
    pub ctx: MacContextId,
    /// The label.
    pub label: MacLabelId,
    /// The access.
    pub access: MacAccessKind,
    /// Whether it is permitted.
    pub allow: bool,
}

/// What a [`FakeMacProvider`] was told.
#[verifier::ext_equal]
pub struct FakeMacView {
    /// The system.
    pub system: MacSystem,
    /// The labels of the paths, in the order they were given.
    pub labels: Seq<(Seq<char>, MacLabelId)>,
    /// The contexts of each uid, in the order they were added.
    pub contexts: Seq<(u32, MacContextId)>,
    /// The permit table, in the order it was filled.
    pub permits: Seq<PermitRule>,
    /// The label renderings, in the order they were given.
    pub label_render: Seq<(MacLabelId, Seq<char>)>,
    /// The context renderings, in the order they were given.
    pub context_render: Seq<(MacContextId, Seq<char>)>,
}

/// The label of a path: the last one given, if any.
pub open spec fn label_of(given: Seq<(Seq<char>, MacLabelId)>, path: Seq<char>) -> Option<
    MacLabelId,
>
    decreases given.len(),
{
    if given.len() == 0 {
        None
    } else if given.last().0 == path {
        Some(given.last().1)
    } else {
        label_of(given.drop_last(), path)
    }
}

/// The contexts that were added for `uid`.
pub open spec fn contexts_of(contexts: Seq<(u32, MacContextId)>, uid: u32) -> Seq<MacContextId>
    decreases contexts.len(),
{
    if contexts.len() == 0 {
        seq![]
    } else {
        let rest = contexts_of(contexts.drop_last(), uid);
        if contexts.last().0 == uid {
            rest.push(contexts.last().1)
        } else {
            rest
        }
    }
}

/// Whether the table permits the access: the last entry for the triple decides, and
/// without one the access is denied.
pub open spec fn permitted(
    table: Seq<PermitRule>,
    ctx: MacContextId,
    label: MacLabelId,
    access: MacAccessKind,
) -> bool
    decreases table.len(),
{
    if table.len() == 0 {
        false
    } else {
        let rule = table.last();
        if rule.ctx == ctx && rule.label == label && rule.access == access {
            rule.allow
        } else {
            permitted(table.drop_last(), ctx, label, access)
        }
    }
}

/// The rendering of a label: the last one given, else a synthetic token.
pub open spec fn label_text(given: Seq<(MacLabelId, Seq<char>)>, label: MacLabelId) -> Seq<char>
    decreases given.len(),
{
    if given.len() == 0 {
        "label#"@ + text::decimal(label.index() as nat)
    } else if given.last().0 == label {
        given.last().1
    } else {
        label_text(given.drop_last(), label)
    }
}

/// The rendering of a context: the last one given, else a synthetic token.
pub open spec fn context_text(
    given: Seq<(MacContextId, Seq<char>)>,
    ctx: MacContextId,
) -> Seq<char>
    decreases given.len(),
{
    if given.len() == 0 {
        "ctx#"@ + text::decimal(ctx.index() as nat)
    } else if given.last().0 == ctx {
        given.last().1
    } else {
        context_text(given.drop_last(), ctx)
    }
}

impl View for FakeMacProvider {
    type V = FakeMacView;

    closed spec fn view(&self) -> FakeMacView {
        FakeMacView {
            system: self.system,
            labels: self.labels@.map_values(|e: (String, MacLabelId)| (e.0@, e.1)),
            contexts: self.contexts@,
            permits: self.permits@,
            label_render: self.label_render@.map_values(|e: (MacLabelId, String)| (e.0, e.1@)),
            context_render: self.context_render@.map_values(
                |e: (MacContextId, String)| (e.0, e.1@),
            ),
        }
    }
}

impl FakeMacProvider {
    /// An empty fake for the given system.
    pub fn new(system: MacSystem) -> (r: Self)
        ensures
            r@ == (FakeMacView {
                system,
                labels: seq![],
                contexts: seq![],
                permits: seq![],
                label_render: seq![],
                context_render: seq![],
            }),
    {
        let r = FakeMacProvider {
            system,
            labels: Vec::new(),
            contexts: Vec::new(),
            permits: Vec::new(),
            label_render: Vec::new(),
            context_render: Vec::new(),
        };
        proof {
            assert(r@.labels =~= seq![]);
            assert(r@.contexts =~= seq![]);
            assert(r@.permits =~= seq![]);
            assert(r@.label_render =~= seq![]);
            assert(r@.context_render =~= seq![]);
        }
        r
    }

    /// Register that `path` carries `label`, rendered as `render`.
    pub fn with_label(&mut self, path: &str, label: MacLabelId, render: &str) -> (r: &mut Self)
        ensures
            r@ == (FakeMacView {
                labels: old(self)@.labels.push((path@, label)),
                label_render: old(self)@.label_render.push((label, render@)),
                ..old(self)@
            }),
            *final(self) == *final(r),
    {
        let ghost was = self@;
        self.labels.push((path.to_owned(), label));
        self.label_render.push((label, render.to_owned()));
        proof {
            assert(self@.labels =~= was.labels.push((path@, label)));
            assert(self@.label_render =~= was.label_render.push((label, render@)));
        }
        self
    }

    /// Add `ctx` (rendered as `render`) to the assumable contexts of `uid`.
    pub fn with_context(&mut self, uid: u32, ctx: MacContextId, render: &str) -> (r: &mut Self)
        ensures
            r@ == (FakeMacView {
                contexts: old(self)@.contexts.push((uid, ctx)),
                context_render: old(self)@.context_render.push((ctx, render@)),
                ..old(self)@
            }),
            *final(self) == *final(r),
    {
        let ghost was = self@;
        self.contexts.push((uid, ctx));
        self.context_render.push((ctx, render.to_owned()));
        proof {
            assert(self@.context_render =~= was.context_render.push((ctx, render@)));
        }
        self
    }

    /// Set whether `ctx` is permitted `access` to `label`.
    pub fn set_permit(
        &mut self,
        ctx: MacContextId,
        label: MacLabelId,
        access: MacAccessKind,
        allow: bool,
    ) -> (r: &mut Self)
        ensures
            r@ == (FakeMacView {
                permits: old(self)@.permits.push(PermitRule { ctx, label, access, allow }),
                ..old(self)@
            }),
            *final(self) == *final(r),
    {
        self.permits.push(PermitRule { ctx, label, access, allow });
        self
    }
}

impl MacProvider for FakeMacProvider {
    fn system(&self) -> (r: MacSystem)
        ensures
            r == self@.system,
    {
        self.system
    }

    fn object_label(&self, path: &str) -> (r: Option<MacLabelId>)
        ensures
            r == label_of(self@.labels, path@),
    {
        let ghost all = self@.labels;
        let mut i: usize = self.labels.len();
        proof {
            assert(all.take(i as int) =~= all);
        }
        while i > 0
            invariant
                all == self@.labels,
                i <= self.labels@.len(),
                all.len() == self.labels@.len(),
                label_of(all, path@) == label_of(all.take(i as int), path@),
            decreases i,
        {
            let entry = &self.labels[i - 1];
            proof {
                assert(all.take(i as int).drop_last() =~= all.take(i - 1));
                assert(all.take(i as int).last() == (entry.0@, entry.1));
            }
            if text::same(&entry.0, path) {
                return Some(entry.1);
            }
            i -= 1;
        }
        None
    }

    fn principal_contexts(&self, uid: u32) -> (r: Vec<MacContextId>)
        ensures
            r@ == contexts_of(self@.contexts, uid),
    {
        let ghost all = self@.contexts;
        let mut out: Vec<MacContextId> = Vec::new();
        let mut i: usize = 0;
        while i < self.contexts.len()
            invariant
                all == self.contexts@,
                i <= all.len(),
                out@ == contexts_of(all.take(i as int), uid),
            decreases all.len() - i,
        {
            let entry = self.contexts[i];
            proof {
                assert(all.take(i + 1).drop_last() =~= all.take(i as int));
                assert(all.take(i + 1).last() == entry);
            }
            if entry.0 == uid {
                out.push(entry.1);
            }
            i += 1;
        }
        proof {
            assert(all.take(i as int) =~= all);
        }
        out
    }

    fn permits(&self, ctx: MacContextId, label: MacLabelId, access: MacAccessKind) -> (r: bool)
        ensures
            r == permitted(self@.permits, ctx, label, access),
    {
        let ghost all = self@.permits;
        let mut i: usize = self.permits.len();
        proof {
            assert(all.take(i as int) =~= all);
        }
        while i > 0
            invariant
                all == self.permits@,
                all == self@.permits,
                i <= all.len(),
                permitted(all, ctx, label, access) == permitted(
                    all.take(i as int),
                    ctx,
                    label,
                    access,
                ),
            decreases i,
        {
            let rule = self.permits[i - 1];
            proof {
                assert(all.take(i as int).drop_last() =~= all.take(i - 1));
                assert(all.take(i as int).last() == rule);
            }
            if rule.ctx == ctx && rule.label == label && rule.access == access {
                return rule.allow;
            }
            i -= 1;
        }
        false
    }

    fn render_context(&self, ctx: MacContextId) -> (r: String)
        ensures
            r@ == context_text(self@.context_render, ctx),
    {
        let ghost all = self@.context_render;
        let mut i: usize = self.context_render.len();
        proof {
            assert(all.take(i as int) =~= all);
        }
        while i > 0
            invariant
                all == self@.context_render,
                i <= self.context_render@.len(),
                all.len() == self.context_render@.len(),
                context_text(all, ctx) == context_text(all.take(i as int), ctx),
            decreases i,
        {
            let entry = &self.context_render[i - 1];
            proof {
                assert(all.take(i as int).drop_last() =~= all.take(i - 1));
                assert(all.take(i as int).last() == (entry.0, entry.1@));
            }
            if entry.0 == ctx {
                return entry.1.clone();
            }
            i -= 1;
        }
        text::join2("ctx#", &text::decimal_string(ctx.as_u32() as u64))
    }

    fn render_label(&self, label: MacLabelId) -> (r: String)
        ensures
            r@ == label_text(self@.label_render, label),
    {
        let ghost all = self@.label_render;
        let mut i: usize = self.label_render.len();
        proof {
            assert(all.take(i as int) =~= all);
        }
        while i > 0
            invariant
                all == self@.label_render,
                i <= self.label_render@.len(),
                all.len() == self.label_render@.len(),
                label_text(all, label) == label_text(all.take(i as int), label),
            decreases i,
        {
            let entry = &self.label_render[i - 1];
            proof {
                assert(all.take(i as int).drop_last() =~= all.take(i - 1));
                assert(all.take(i as int).last() == (entry.0, entry.1@));
            }
            if entry.0 == label {
                return entry.1.clone();
            }
            i -= 1;
        }
        text::join2("label#", &text::decimal_string(label.as_u32() as u64))
    }
}

// ---------------------------------------------------------------------------
// Laws
// ---------------------------------------------------------------------------

/// A triple that no entry of the table is about is denied.
pub proof fn unset_permits_are_denied(
    table: Seq<PermitRule>,
    ctx: MacContextId,
    label: MacLabelId,
    access: MacAccessKind,
)
    requires
        forall|i: int|
            0 <= i < table.len() ==> !((#[trigger] table[i]).ctx == ctx && table[i].label == label
                && table[i].access == access),
    ensures
        !permitted(table, ctx, label, access),
    decreases table.len(),
{
    if table.len() > 0 {
        assert(table.last() == table[table.len() - 1]);
        unset_permits_are_denied(table.drop_last(), ctx, label, access);
    }
}

/// An entry decides its own triple from then on, and no other.
pub proof fn a_permit_decides_its_own_triple(
    table: Seq<PermitRule>,
    rule: PermitRule,
    ctx: MacContextId,
    label: MacLabelId,
    access: MacAccessKind,
)
    ensures
        permitted(table.push(rule), ctx, label, access) == if rule.ctx == ctx && rule.label
            == label && rule.access == access {
            rule.allow
        } else {
            permitted(table, ctx, label, access)
        },
{
    assert(table.push(rule).drop_last() =~= table);
}

/// The contexts of a uid are kept in the order they were added.
pub proof fn contexts_add_up(a: Seq<(u32, MacContextId)>, b: Seq<(u32, MacContextId)>, uid: u32)
    ensures
        contexts_of(Seq::<(u32, MacContextId)>::empty(), uid).len() == 0,
        contexts_of(a + b, uid) == contexts_of(a, uid) + contexts_of(b, uid),
    decreases b.len(),
{
    if b.len() == 0 {
        assert(a + b =~= a);
        assert(contexts_of(a, uid) + contexts_of(b, uid) =~= contexts_of(a, uid));
    } else {
        contexts_add_up(a, b.drop_last(), uid);
        assert((a + b).drop_last() =~= a + b.drop_last());
        assert((a + b).last() == b.last());
        assert(contexts_of(a + b, uid) =~= contexts_of(a, uid) + contexts_of(b, uid));
    }
}

/// A context belongs to the uid that it was added for.
pub proof fn contexts_belong_to_their_uid(ctx: MacContextId, owner: u32, uid: u32)
    ensures
        owner == uid ==> contexts_of(seq![(owner, ctx)], uid) == seq![ctx],
        owner != uid ==> contexts_of(seq![(owner, ctx)], uid).len() == 0,
{
    reveal_with_fuel(contexts_of, 2);
    assert(seq![(owner, ctx)].drop_last() =~= seq![]);
    assert(seq![(owner, ctx)].last() == (owner, ctx));
    assert(Seq::<MacContextId>::empty().push(ctx) =~= seq![ctx]);
}

/// What is given last for a path, a label or a context replaces what was given for it
/// before, and nothing else. Without anything given a path has no label, and a label or a
/// context is shown by its number.
pub proof fn what_is_given_last_counts(
    labels: Seq<(Seq<char>, MacLabelId)>,
    shown: Seq<(MacLabelId, Seq<char>)>,
    named: Seq<(MacContextId, Seq<char>)>,
    path: Seq<char>,
    other: Seq<char>,
    label: MacLabelId,
    other_label: MacLabelId,
    ctx: MacContextId,
    other_ctx: MacContextId,
    t: Seq<char>,
)
    ensures
        label_of(Seq::<(Seq<char>, MacLabelId)>::empty(), path) is None,
        label_of(labels.push((path, label)), path) == Some(label),
        other != path ==> label_of(labels.push((path, label)), other) == label_of(labels, other),
        label_text(Seq::<(MacLabelId, Seq<char>)>::empty(), label) == "label#"@ + text::decimal(
            label.index() as nat,
        ),
        label_text(shown.push((label, t)), label) == t,
        other_label != label ==> label_text(shown.push((label, t)), other_label) == label_text(
            shown,
            other_label,
        ),
        context_text(Seq::<(MacContextId, Seq<char>)>::empty(), ctx) == "ctx#"@ + text::decimal(
            ctx.index() as nat,
        ),
        context_text(named.push((ctx, t)), ctx) == t,
        other_ctx != ctx ==> context_text(named.push((ctx, t)), other_ctx) == context_text(
            named,
            other_ctx,
        ),
{
    assert(labels.push((path, label)).drop_last() =~= labels);
    assert(shown.push((label, t)).drop_last() =~= shown);
    assert(named.push((ctx, t)).drop_last() =~= named);
}

/// The tokens of systems and accesses.
pub proof fn systems_and_accesses_have_their_tokens()
    ensures
        MacSystem::Parsec.text() == "parsec"@,
        MacSystem::Selinux.text() == "selinux"@,
        MacAccessKind::Read.text() == "read"@,
        MacAccessKind::Write.text() == "write"@,
        MacAccessKind::Execute.text() == "execute"@,
{
}

} // verus!
