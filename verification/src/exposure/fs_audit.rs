//! The global, principal-independent posture map.
//!
//! Where the expose engine answers "what can *this* principal reach", [`audit_fs`]
//! answers "what dangerous permission classes lie in the filesystem at all". It reports
//! four axes straight from each inode's mode bits, ACL and class, with no principal and
//! no reachability:
//!
//! 1. **world-writable** in a sensitive tree;
//! 2. the **setuid/setgid inventory**, critical where also world-writable;
//! 3. a **world-readable secret**;
//! 4. **broad-group-writable**: writable by an owning group that is a wide group.
//!
//! Findings are deduplicated by path, reason and risk, keeping the highest severity: a
//! different source or a different harm stays a separate finding.

use vstd::prelude::*;

use crate::exposure::access;
use crate::exposure::access::AccessVia;
use crate::exposure::acl;
use crate::exposure::acl::{AclPerms, AclTag};
use crate::exposure::index;
use crate::exposure::index::{InodeRecord, PermissionIndex};
use crate::exposure::taxonomy;
use crate::exposure::taxonomy::{
    Finding, RemediationClass, RemediationContext, Risk, Severity,
};
use crate::exposure::ObjectClass;
use crate::inspect;
use crate::inspect::HostFacts;
use crate::names;
use crate::text;

verus! {

broadcast use vstd::string::group_string_axioms;

/// The default wide groups whose group-write access is a posture concern, by name.
pub const DEFAULT_BROAD_GROUPS: [&'static str; 5] = ["adm", "wheel", "sudo", "staff", "users"];

// ---------------------------------------------------------------------------
// The four axes
// ---------------------------------------------------------------------------

/// Whether world write to an object of this class is reported by its own axis. Setuid
/// binaries have an axis of their own, and generic objects are scratch noise.
pub open spec fn sensitive(class: ObjectClass) -> bool {
    !(class is SetuidBinary) && !(class is Generic)
}

/// The world permissions of a mode.
pub open spec fn world_bits(mode: u32) -> AclPerms {
    access::mode_bits(mode, 0)
}

/// The effective permissions of the owning group. On an inode with an ACL the mode's
/// group triple is the mask, so the group's own entry, masked, is what counts.
pub open spec fn owning_group_bits(rec: index::RecordView) -> AclPerms {
    match rec.acl {
        None => access::mode_bits(rec.mode, 3),
        Some(entries) => access::perms_or(
            access::perms_for(entries, acl::TagView::GroupObj),
            access::mode_bits(rec.mode, 3),
        ).meet(access::mask_of(entries)),
    }
}

/// The hint of the setuid inventory.
pub open spec fn setuid_hint(path: Seq<char>, writable: bool) -> Seq<char> {
    if writable {
        "writable setuid/setgid binary — remove world write manually (`chmod o-w "@ + path
            + "`) and investigate why it is writable"@
    } else {
        "setuid/setgid binary — verify it is expected and package-owned: `"@ + path + "`"@
    }
}

/// World-writable in a sensitive tree.
pub open spec fn world_writable<C: RemediationContext>(
    rec: index::RecordView,
    ctx: &C,
) -> Option<taxonomy::FindingView> {
    if sensitive(rec.class) && world_bits(rec.mode).write {
        taxonomy::table_finding(
            rec.path,
            rec.class,
            world_bits(rec.mode),
            access::ViaView::OtherBits,
            None,
            ctx,
        )
    } else {
        None
    }
}

/// The setuid/setgid inventory: an escalation surface, high where world-writable.
/// The bit is a property of a foreign object, so the fix is always manual.
pub open spec fn setuid_inventory(rec: index::RecordView) -> Option<taxonomy::FindingView> {
    let world = world_bits(rec.mode);
    if rec.class is SetuidBinary {
        Some(
            taxonomy::FindingView {
                principal: None,
                path: rec.path,
                access: world,
                why: access::ViaView::OtherBits,
                class: rec.class,
                risk: Risk::Escalation,
                severity: if world.write {
                    Severity::High
                } else {
                    Severity::Medium
                },
                remediation_class: RemediationClass::Ambient,
                hint: setuid_hint(rec.path, world.write),
            },
        )
    } else {
        None
    }
}

/// A world-readable secret: only the read is reported, so the risk is a leak.
pub open spec fn readable_secret<C: RemediationContext>(
    rec: index::RecordView,
    ctx: &C,
) -> Option<taxonomy::FindingView> {
    if rec.class is Secret && world_bits(rec.mode).read {
        taxonomy::table_finding(
            rec.path,
            rec.class,
            AclPerms { read: true, write: false, execute: false },
            access::ViaView::OtherBits,
            None,
            ctx,
        )
    } else {
        None
    }
}

/// Writable by an owning group whose name is that of a wide group.
pub open spec fn broad_group_writable<C: RemediationContext>(
    rec: index::RecordView,
    ctx: &C,
    broad: Seq<Seq<char>>,
    h: HostFacts,
) -> Option<taxonomy::FindingView> {
    let bits = owning_group_bits(rec);
    match inspect::name_with_gid(h.groups.seq(), rec.gid) {
        Some(name) => if bits.write && text::listed(broad, name) {
            taxonomy::table_finding(
                rec.path,
                rec.class,
                bits,
                access::ViaView::Group(name),
                None,
                ctx,
            )
        } else {
            None
        },
        None => None,
    }
}

/// A list of at most one finding.
pub open spec fn as_list(f: Option<taxonomy::FindingView>) -> Seq<taxonomy::FindingView> {
    match f {
        Some(f) => seq![f],
        None => seq![],
    }
}

/// What the four axes say of one record.
pub open spec fn record_posture<C: RemediationContext>(
    rec: index::RecordView,
    ctx: &C,
    broad: Seq<Seq<char>>,
    h: HostFacts,
) -> Seq<taxonomy::FindingView> {
    as_list(world_writable(rec, ctx)) + as_list(setuid_inventory(rec)) + as_list(
        readable_secret(rec, ctx),
    ) + as_list(broad_group_writable(rec, ctx, broad, h))
}

/// What the four axes say of the records, in index order.
pub open spec fn candidates<C: RemediationContext>(
    recs: Seq<index::RecordView>,
    ctx: &C,
    broad: Seq<Seq<char>>,
    h: HostFacts,
) -> Seq<taxonomy::FindingView>
    decreases recs.len(),
{
    if recs.len() == 0 {
        seq![]
    } else {
        candidates(recs.drop_last(), ctx, broad, h) + record_posture(recs.last(), ctx, broad, h)
    }
}

// ---------------------------------------------------------------------------
// Deduplication
// ---------------------------------------------------------------------------

/// Whether two findings are about the same path, source and harm.
#[verifier::opaque]
pub open spec fn same_key(a: taxonomy::FindingView, b: taxonomy::FindingView) -> bool {
    a.path == b.path && a.why.text() == b.why.text() && a.risk == b.risk
}

/// The order of the posture map: by path, then reason, then risk.
#[verifier::opaque]
pub open spec fn key_lt(a: taxonomy::FindingView, b: taxonomy::FindingView) -> bool {
    if a.path != b.path {
        text::text_lt(a.path, b.path)
    } else if a.why.text() != b.why.text() {
        text::text_lt(a.why.text(), b.why.text())
    } else {
        text::text_lt(a.risk.text(), b.risk.text())
    }
}

/// Whether candidate `c` is the one kept for its key: the first of the most severe.
pub open spec fn kept(cands: Seq<taxonomy::FindingView>, c: int) -> bool {
    &&& 0 <= c < cands.len()
    &&& forall|j: int|
        0 <= j < cands.len() && same_key(#[trigger] cands[j], cands[c]) ==> {
            &&& cands[j].severity.weight() <= cands[c].severity.weight()
            &&& j < c ==> cands[j].severity.weight() < cands[c].severity.weight()
        }
}

/// Whether `f` is a candidate that is kept.
#[verifier::opaque]
pub open spec fn is_kept(cands: Seq<taxonomy::FindingView>, f: taxonomy::FindingView) -> bool {
    exists|c: int| #[trigger] kept(cands, c) && cands[c] == f
}

/// Whether the list has a finding with the key of `f`.
#[verifier::opaque]
pub open spec fn has_key(out: Seq<taxonomy::FindingView>, f: taxonomy::FindingView) -> bool {
    exists|i: int| 0 <= i < out.len() && same_key(#[trigger] out[i], f)
}

/// Whether `out` is in order, without two findings of one key.
pub open spec fn ordered(out: Seq<taxonomy::FindingView>) -> bool {
    forall|i: int, j: int| 0 <= i < j < out.len() ==> key_lt(#[trigger] out[i], #[trigger] out[j])
}

/// Whether `out` is the posture map of the candidates: in order, the kept candidate of
/// every key and nothing else.
pub open spec fn posture(
    out: Seq<taxonomy::FindingView>,
    cands: Seq<taxonomy::FindingView>,
) -> bool {
    &&& ordered(out)
    &&& forall|i: int| 0 <= i < out.len() ==> is_kept(cands, #[trigger] out[i])
    &&& forall|c: int| 0 <= c < cands.len() ==> has_key(out, #[trigger] cands[c])
}

/// Different risks have different tokens.
proof fn lemma_risk_text(a: Risk, b: Risk)
    ensures
        a.text() == b.text() <==> a == b,
{
    reveal_strlit("escalation");
    reveal_strlit("leak");
    reveal_strlit("tamper");
    assert("escalation"@.len() == 10);
    assert("leak"@.len() == 4);
    assert("tamper"@.len() == 6);
}

/// The order of the posture map is a strict total order of the keys.
proof fn lemma_key_order(
    a: taxonomy::FindingView,
    b: taxonomy::FindingView,
    c: taxonomy::FindingView,
)
    ensures
        same_key(a, b) ==> !key_lt(a, b),
        key_lt(a, b) || key_lt(b, a) || same_key(a, b),
        key_lt(a, b) && key_lt(b, c) ==> key_lt(a, c),
        same_key(a, b) ==> key_lt(a, c) == key_lt(b, c) && key_lt(c, a) == key_lt(c, b),
        same_key(a, a),
        same_key(a, b) == same_key(b, a),
        same_key(a, b) ==> same_key(a, c) == same_key(b, c),
{
    reveal(same_key);
    reveal(key_lt);
    lemma_risk_text(a.risk, b.risk);
    names::lemma_lt_irreflexive(a.path);
    names::lemma_lt_irreflexive(b.path);
    names::lemma_lt_irreflexive(a.why.text());
    names::lemma_lt_irreflexive(b.why.text());
    names::lemma_lt_irreflexive(a.risk.text());
    names::lemma_lt_total(a.path, b.path);
    names::lemma_lt_total(a.why.text(), b.why.text());
    names::lemma_lt_total(a.risk.text(), b.risk.text());
    if key_lt(a, b) && key_lt(b, c) {
        if a.path != b.path && b.path != c.path {
            names::lemma_lt_transitive(a.path, b.path, c.path);
            if a.path == c.path {
                names::lemma_lt_irreflexive(a.path);
            }
        } else if a.path == b.path && b.path == c.path {
            if a.why.text() != b.why.text() && b.why.text() != c.why.text() {
                names::lemma_lt_transitive(a.why.text(), b.why.text(), c.why.text());
                if a.why.text() == c.why.text() {
                    names::lemma_lt_irreflexive(a.why.text());
                }
            } else if a.why.text() == b.why.text() && b.why.text() == c.why.text() {
                names::lemma_lt_transitive(a.risk.text(), b.risk.text(), c.risk.text());
            }
        }
    }
}

/// The index of a kept candidate.
proof fn lemma_kept_index(cands: Seq<taxonomy::FindingView>, f: taxonomy::FindingView) -> (c: int)
    requires
        is_kept(cands, f),
    ensures
        kept(cands, c),
        cands[c] == f,
{
    reveal(is_kept);
    choose|c: int| #[trigger] kept(cands, c) && cands[c] == f
}

/// A candidate that is kept at some index is kept.
proof fn lemma_is_kept(cands: Seq<taxonomy::FindingView>, c: int)
    requires
        kept(cands, c),
    ensures
        is_kept(cands, cands[c]),
{
    reveal(is_kept);
}

/// The place of a key.
proof fn lemma_key_index(out: Seq<taxonomy::FindingView>, f: taxonomy::FindingView) -> (i: int)
    requires
        has_key(out, f),
    ensures
        0 <= i < out.len(),
        same_key(out[i], f),
{
    reveal(has_key);
    choose|i: int| 0 <= i < out.len() && same_key(#[trigger] out[i], f)
}

/// A key that stands at some place is there.
proof fn lemma_has_key(out: Seq<taxonomy::FindingView>, f: taxonomy::FindingView, i: int)
    requires
        0 <= i < out.len(),
        same_key(out[i], f),
    ensures
        has_key(out, f),
{
    reveal(has_key);
}

/// In an ordered list a key stands in one place only.
proof fn lemma_ordered_key(
    out: Seq<taxonomy::FindingView>,
    i: int,
    p: int,
    f: taxonomy::FindingView,
)
    requires
        ordered(out),
        0 <= i < out.len(),
        0 <= p < out.len(),
        same_key(out[i], f),
        same_key(out[p], f),
    ensures
        i == p,
{
    lemma_key_order(out[p], f, out[i]);
    lemma_key_order(f, out[i], out[i]);
    lemma_key_order(out[i], out[p], f);
    lemma_key_order(out[p], out[i], f);
    if i < p {
        assert(key_lt(out[i], out[p]));
    }
    if p < i {
        assert(key_lt(out[p], out[i]));
    }
}

/// A kept candidate stays kept when one of another key, or one not more severe,
/// follows.
proof fn lemma_kept_grows(cands: Seq<taxonomy::FindingView>, f: taxonomy::FindingView, c: int)
    requires
        kept(cands, c),
        !same_key(f, cands[c]) || f.severity.weight() <= cands[c].severity.weight(),
    ensures
        is_kept(cands.push(f), cands[c]),
{
    let all = cands.push(f);
    assert forall|j: int| 0 <= j < all.len() && same_key(#[trigger] all[j], all[c]) implies {
        &&& all[j].severity.weight() <= all[c].severity.weight()
        &&& j < c ==> all[j].severity.weight() < all[c].severity.weight()
    } by {
        if j < cands.len() {
            assert(all[j] == cands[j]);
        }
    }
    lemma_is_kept(all, c);
}

/// The last candidate is kept where those of its key before it are less severe.
proof fn lemma_kept_last(cands: Seq<taxonomy::FindingView>, f: taxonomy::FindingView)
    requires
        forall|j: int|
            0 <= j < cands.len() && same_key(#[trigger] cands[j], f)
                ==> cands[j].severity.weight() < f.severity.weight(),
    ensures
        is_kept(cands.push(f), f),
{
    let all = cands.push(f);
    let n = cands.len() as int;
    assert forall|j: int| 0 <= j < all.len() && same_key(#[trigger] all[j], all[n]) implies {
        &&& all[j].severity.weight() <= all[n].severity.weight()
        &&& j < n ==> all[j].severity.weight() < all[n].severity.weight()
    } by {
        if j < n {
            assert(all[j] == cands[j]);
        }
    }
    lemma_is_kept(all, n);
}

/// One more candidate with a key that is not there yet: it takes its place.
proof fn lemma_posture_insert(
    out: Seq<taxonomy::FindingView>,
    cands: Seq<taxonomy::FindingView>,
    f: taxonomy::FindingView,
    p: int,
)
    requires
        posture(out, cands),
        0 <= p <= out.len(),
        forall|i: int| 0 <= i < p ==> key_lt(#[trigger] out[i], f),
        forall|i: int| p <= i < out.len() ==> key_lt(f, #[trigger] out[i]),
    ensures
        posture(out.insert(p, f), cands.push(f)),
{
    let now = out.insert(p, f);
    let all = cands.push(f);
    assert(ordered(now)) by {
        assert forall|i: int, j: int| 0 <= i < j < now.len() implies key_lt(
            #[trigger] now[i],
            #[trigger] now[j],
        ) by {
            let i2 = if i < p { i } else { i - 1 };
            let j2 = if j < p { j } else { j - 1 };
            if i == p {
                assert(now[j] == out[j2]);
            } else if j == p {
                assert(now[i] == out[i2]);
            } else {
                assert(key_lt(out[i2], out[j2]));
            }
        }
    }
    // No candidate so far has the key of `f`.
    assert forall|c: int| 0 <= c < cands.len() implies !same_key(#[trigger] cands[c], f) by {
        let i = lemma_key_index(out, cands[c]);
        lemma_key_order(out[i], cands[c], f);
        lemma_key_order(out[i], f, f);
        lemma_key_order(f, out[i], f);
    }
    assert forall|i: int| 0 <= i < now.len() implies is_kept(all, #[trigger] now[i]) by {
        if i == p {
            lemma_kept_last(cands, f);
        } else {
            let i2 = if i < p { i } else { i - 1 };
            assert(now[i] == out[i2]);
            let c = lemma_kept_index(cands, out[i2]);
            lemma_key_order(f, cands[c], f);
            lemma_kept_grows(cands, f, c);
        }
    }
    assert forall|c: int| 0 <= c < all.len() implies has_key(now, #[trigger] all[c]) by {
        if c == cands.len() {
            lemma_key_order(f, f, f);
            lemma_has_key(now, f, p);
        } else {
            assert(all[c] == cands[c]);
            let i = lemma_key_index(out, cands[c]);
            let i2 = if i < p { i } else { i + 1 };
            assert(now[i2] == out[i]);
            lemma_has_key(now, cands[c], i2);
        }
    }
}

/// One more candidate with a key that is there, not more severe: nothing changes.
proof fn lemma_posture_same(
    out: Seq<taxonomy::FindingView>,
    cands: Seq<taxonomy::FindingView>,
    f: taxonomy::FindingView,
    p: int,
)
    requires
        posture(out, cands),
        0 <= p < out.len(),
        same_key(out[p], f),
        f.severity.weight() <= out[p].severity.weight(),
    ensures
        posture(out, cands.push(f)),
{
    let all = cands.push(f);
    assert forall|i: int| 0 <= i < out.len() implies is_kept(all, #[trigger] out[i]) by {
        let c = lemma_kept_index(cands, out[i]);
        lemma_key_order(f, out[i], f);
        if same_key(f, out[i]) {
            lemma_ordered_key(out, i, p, f);
        }
        lemma_kept_grows(cands, f, c);
    }
    assert forall|c: int| 0 <= c < all.len() implies has_key(out, #[trigger] all[c]) by {
        if c == cands.len() {
            lemma_has_key(out, f, p);
        } else {
            assert(all[c] == cands[c]);
        }
    }
}

/// One more candidate with a key that is there, more severe: it replaces the other.
proof fn lemma_posture_replace(
    out: Seq<taxonomy::FindingView>,
    cands: Seq<taxonomy::FindingView>,
    f: taxonomy::FindingView,
    p: int,
)
    requires
        posture(out, cands),
        0 <= p < out.len(),
        same_key(out[p], f),
        f.severity.weight() > out[p].severity.weight(),
    ensures
        posture(out.update(p, f), cands.push(f)),
{
    let now = out.update(p, f);
    let all = cands.push(f);
    assert(ordered(now)) by {
        assert forall|i: int, j: int| 0 <= i < j < now.len() implies key_lt(
            #[trigger] now[i],
            #[trigger] now[j],
        ) by {
            assert(key_lt(out[i], out[j]));
            lemma_key_order(out[p], f, out[i]);
            lemma_key_order(out[p], f, out[j]);
        }
    }
    let w = lemma_kept_index(cands, out[p]);
    assert forall|j: int| 0 <= j < cands.len() && same_key(#[trigger] cands[j], f) implies
        cands[j].severity.weight() < f.severity.weight() by {
        lemma_key_order(cands[j], f, out[p]);
        lemma_key_order(out[p], f, out[p]);
        assert(same_key(cands[j], cands[w]));
    }
    assert forall|i: int| 0 <= i < now.len() implies is_kept(all, #[trigger] now[i]) by {
        if i == p {
            lemma_kept_last(cands, f);
        } else {
            assert(now[i] == out[i]);
            let c = lemma_kept_index(cands, out[i]);
            lemma_key_order(f, out[i], f);
            if same_key(f, out[i]) {
                lemma_ordered_key(out, i, p, f);
            }
            lemma_kept_grows(cands, f, c);
        }
    }
    assert forall|c: int| 0 <= c < all.len() implies has_key(now, #[trigger] all[c]) by {
        if c == cands.len() {
            lemma_key_order(f, f, f);
            lemma_has_key(now, f, p);
        } else {
            assert(all[c] == cands[c]);
            let i = lemma_key_index(out, cands[c]);
            if i == p {
                lemma_key_order(out[p], f, cands[c]);
                lemma_has_key(now, cands[c], p);
            } else {
                lemma_has_key(now, cands[c], i);
            }
        }
    }
}

// ---------------------------------------------------------------------------
// The audit
// ---------------------------------------------------------------------------

/// Build the global posture map from `index`.
///
/// Every finding has no principal. `ctx` tells which groups are managed; `broad_groups`
/// names the wide groups, and the owning group's name is looked up in `facts`, so the
/// match survives a renumbered group and a gid without a group is skipped.
pub fn audit_fs<C: RemediationContext>(
    index: &PermissionIndex,
    ctx: &C,
    broad_groups: &[String],
    facts: &HostFacts,
) -> (findings: Vec<Finding>)
    ensures
        posture(
            taxonomy::finding_views(findings@),
            candidates(index.recs(), ctx, text::views(broad_groups@), *facts),
        ),
{
    let ghost recs = index.recs();
    let ghost broad = text::views(broad_groups@);
    let records = index.records();
    let mut cands: Vec<Finding> = Vec::new();
    let mut i: usize = 0;
    proof {
        assert(taxonomy::finding_views(cands@) =~= candidates(recs.take(0), ctx, broad, *facts));
    }
    while i < records.len()
        invariant
            recs == index::record_views(records@),
            broad == text::views(broad_groups@),
            i <= records@.len(),
            taxonomy::finding_views(cands@) == candidates(
                recs.take(i as int),
                ctx,
                broad,
                *facts,
            ),
        decreases records@.len() - i,
    {
        let record = &records[i];
        proof {
            assert(recs.take(i + 1).drop_last() =~= recs.take(i as int));
            assert(recs.take(i + 1).last() == record@);
        }
        let ghost was = taxonomy::finding_views(cands@);
        let a = collect_world_writable(record, ctx);
        let b = collect_setuid(record);
        let c = collect_world_readable_secret(record, ctx);
        let d = collect_broad_group_writable(record, ctx, broad_groups, facts);
        push_some(&mut cands, a);
        push_some(&mut cands, b);
        push_some(&mut cands, c);
        push_some(&mut cands, d);
        proof {
            assert(taxonomy::finding_views(cands@) =~= was + record_posture(
                record@,
                ctx,
                broad,
                *facts,
            ));
        }
        i += 1;
    }
    proof {
        assert(recs.take(i as int) =~= recs);
    }
    dedup_keep_severest(cands)
}

/// Append a finding, where there is one.
fn push_some(out: &mut Vec<Finding>, f: Option<Finding>)
    ensures
        taxonomy::finding_views(final(out)@) == taxonomy::finding_views(old(out)@) + as_list(
            taxonomy::opt_finding(f),
        ),
{
    let ghost was = taxonomy::finding_views(out@);
    match f {
        Some(f) => {
            let ghost one = f@;
            out.push(f);
            proof {
                assert(taxonomy::finding_views(out@) =~= was + seq![one]);
            }
        },
        None => {
            proof {
                assert(was =~= was + Seq::<taxonomy::FindingView>::empty());
            }
        },
    }
}

/// World-writable in a sensitive tree.
fn collect_world_writable<C: RemediationContext>(record: &InodeRecord, ctx: &C) -> (r: Option<
    Finding,
>)
    ensures
        taxonomy::opt_finding(r) == world_writable(record@, ctx),
{
    if !is_sensitive_writable_class(record.class) {
        return None;
    }
    let world = access::mode_triple(record.mode, 0);
    if !world.write {
        return None;
    }
    taxonomy::build_finding(&record.path, record.class, world, &AccessVia::OtherBits, None, ctx)
}

/// The setuid/setgid inventory entry of a record.
fn collect_setuid(record: &InodeRecord) -> (r: Option<Finding>)
    ensures
        taxonomy::opt_finding(r) == setuid_inventory(record@),
{
    match record.class {
        ObjectClass::SetuidBinary => {},
        _ => {
            return None;
        },
    }
    let world = access::mode_triple(record.mode, 0);
    let severity = if world.write {
        Severity::High
    } else {
        Severity::Medium
    };
    let hint = if world.write {
        text::join3(
            "writable setuid/setgid binary — remove world write manually (`chmod o-w ",
            &record.path,
            "`) and investigate why it is writable",
        )
    } else {
        text::join3(
            "setuid/setgid binary — verify it is expected and package-owned: `",
            &record.path,
            "`",
        )
    };
    Some(
        Finding {
            principal: None,
            path: record.path.clone(),
            access: world,
            via: AccessVia::OtherBits,
            class: record.class,
            risk: Risk::Escalation,
            severity,
            remediation_class: RemediationClass::Ambient,
            hint,
        },
    )
}

/// World-readable secret: a leak.
fn collect_world_readable_secret<C: RemediationContext>(record: &InodeRecord, ctx: &C) -> (r:
    Option<Finding>)
    ensures
        taxonomy::opt_finding(r) == readable_secret(record@, ctx),
{
    match record.class {
        ObjectClass::Secret => {},
        _ => {
            return None;
        },
    }
    let world = access::mode_triple(record.mode, 0);
    if !world.read {
        return None;
    }
    let read_only = AclPerms { read: true, write: false, execute: false };
    taxonomy::build_finding(
        &record.path,
        record.class,
        read_only,
        &AccessVia::OtherBits,
        None,
        ctx,
    )
}

/// Writable by an owning group that is named in `broad_groups`.
fn collect_broad_group_writable<C: RemediationContext>(
    record: &InodeRecord,
    ctx: &C,
    broad_groups: &[String],
    facts: &HostFacts,
) -> (r: Option<Finding>)
    ensures
        taxonomy::opt_finding(r) == broad_group_writable(
            record@,
            ctx,
            text::views(broad_groups@),
            *facts,
        ),
{
    let group = owning_group_perms(record);
    if !group.write {
        return None;
    }
    match facts.group_name_by_gid(record.gid) {
        None => None,
        Some(name) => {
            if !text::in_list(broad_groups, &name) {
                return None;
            }
            taxonomy::build_finding(
                &record.path,
                record.class,
                group,
                &AccessVia::Group(name),
                None,
                ctx,
            )
        },
    }
}

/// The effective permissions of the inode's owning group.
fn owning_group_perms(record: &InodeRecord) -> (r: AclPerms)
    ensures
        r == owning_group_bits(record@),
{
    match &record.acl {
        None => access::mode_triple(record.mode, 3),
        Some(acl) => {
            let own = match access::find_perms(acl, &AclTag::GroupObj) {
                Some(p) => p,
                None => access::mode_triple(record.mode, 3),
            };
            own.masked(access::acl_mask(acl))
        },
    }
}

/// Whether two findings have the same key.
fn keys_match(a: &Finding, b: &Finding) -> (r: bool)
    ensures
        r == same_key(a@, b@),
{
    proof {
        reveal(same_key);
    }
    a.risk == b.risk && text::same(&a.path, &b.path) && text::same(&a.via.label(), &b.via.label())
}

/// Whether the key of `a` comes before that of `b`.
fn key_before(a: &Finding, b: &Finding) -> (r: bool)
    ensures
        r == key_lt(a@, b@),
{
    proof {
        reveal(key_lt);
    }
    if !text::same(&a.path, &b.path) {
        return text::before(&a.path, &b.path);
    }
    let x = a.via.label();
    let y = b.via.label();
    if !text::same(&x, &y) {
        return text::before(&x, &y);
    }
    text::before(a.risk.as_str(), b.risk.as_str())
}

/// Deduplicate by path, reason and risk, keeping the first of the most severe, in
/// order of path, reason and risk.
fn dedup_keep_severest(cands: Vec<Finding>) -> (out: Vec<Finding>)
    ensures
        posture(taxonomy::finding_views(out@), taxonomy::finding_views(cands@)),
{
    let ghost all = taxonomy::finding_views(cands@);
    let mut queue = cands;
    let mut rest: Vec<Finding> = Vec::new();
    // The candidates in reverse, so that they can be taken off the end in order.
    while queue.len() > 0
        invariant
            all == taxonomy::finding_views(queue@) + taxonomy::finding_views(rest@).reverse(),
        decreases queue@.len(),
    {
        let ghost q = taxonomy::finding_views(queue@);
        let ghost r = taxonomy::finding_views(rest@);
        let f = queue.pop().unwrap();
        let ghost one = f@;
        rest.push(f);
        proof {
            assert(q =~= taxonomy::finding_views(queue@).push(one));
            assert(taxonomy::finding_views(rest@) =~= r.push(one));
            assert(all =~= taxonomy::finding_views(queue@) + taxonomy::finding_views(
                rest@,
            ).reverse());
        }
    }
    proof {
        assert(all =~= taxonomy::finding_views(rest@).reverse());
    }
    let mut out: Vec<Finding> = Vec::new();
    proof {
        assert(all.take(0) =~= Seq::<taxonomy::FindingView>::empty());
    }
    while rest.len() > 0
        invariant
            rest@.len() <= all.len(),
            taxonomy::finding_views(rest@).reverse() == all.skip(all.len() - rest@.len()),
            posture(taxonomy::finding_views(out@), all.take(all.len() - rest@.len())),
        decreases rest@.len(),
    {
        let ghost n = all.len() - rest@.len();
        let ghost left = taxonomy::finding_views(rest@);
        let f = rest.pop().unwrap();
        let ghost one = f@;
        proof {
            assert(left =~= taxonomy::finding_views(rest@).push(one));
            assert(left.reverse()[0] == one);
            assert(all.skip(n)[0] == all[n]);
            assert(all.take(n + 1) =~= all.take(n).push(one));
            assert(taxonomy::finding_views(rest@).reverse() =~= all.skip(n + 1)) by {
                assert forall|k: int| 0 <= k < rest@.len() implies taxonomy::finding_views(
                    rest@,
                ).reverse()[k] == all.skip(n + 1)[k] by {
                    assert(left.reverse()[k + 1] == all.skip(n)[k + 1]);
                }
            }
        }
        put(&mut out, f, Ghost(all.take(n)));
    }
    proof {
        assert(all.take(all.len() as int) =~= all);
    }
    out
}

/// Put one more candidate into the posture map of those before it.
fn put(out: &mut Vec<Finding>, f: Finding, before: Ghost<Seq<taxonomy::FindingView>>)
    requires
        posture(taxonomy::finding_views(old(out)@), before@),
    ensures
        posture(taxonomy::finding_views(final(out)@), before@.push(f@)),
{
    let ghost views = taxonomy::finding_views(out@);
    let ghost one = f@;
    let mut p: usize = 0;
    while p < out.len() && key_before(&out[p], &f)
        invariant
            *out == *old(out),
            views == taxonomy::finding_views(out@),
            one == f@,
            p <= out@.len(),
            forall|i: int| 0 <= i < p ==> key_lt(#[trigger] views[i], one),
        decreases out@.len() - p,
    {
        p += 1;
    }
    if p < out.len() && keys_match(&out[p], &f) {
        if f.severity.rank() > out[p].severity.rank() {
            proof {
                lemma_posture_replace(views, before@, one, p as int);
            }
            out.set(p, f);
            proof {
                assert(taxonomy::finding_views(out@) =~= views.update(p as int, one));
            }
        } else {
            proof {
                lemma_posture_same(views, before@, one, p as int);
            }
        }
    } else {
        proof {
            assert forall|i: int| p <= i < views.len() implies key_lt(one, #[trigger] views[i]) by {
                lemma_key_order(views[p as int], one, views[i]);
                lemma_key_order(one, views[p as int], views[i]);
                if i > p {
                    assert(key_lt(views[p as int], views[i]));
                }
            }
            lemma_posture_insert(views, before@, one, p as int);
        }
        out.insert(p, f);
        proof {
            assert(taxonomy::finding_views(out@) =~= views.insert(p as int, one));
        }
    }
}

/// Whether `class` is a sensitive tree the world-writable axis reports.
fn is_sensitive_writable_class(class: ObjectClass) -> (r: bool)
    ensures
        r == sensitive(class),
{
    match class {
        ObjectClass::SetuidBinary => false,
        ObjectClass::Generic => false,
        _ => true,
    }
}

// ---------------------------------------------------------------------------
// Laws
// ---------------------------------------------------------------------------

/// Every candidate names no principal.
proof fn lemma_no_principal<C: RemediationContext>(
    recs: Seq<index::RecordView>,
    ctx: &C,
    broad: Seq<Seq<char>>,
    h: HostFacts,
)
    ensures
        forall|i: int|
            0 <= i < candidates(recs, ctx, broad, h).len() ==> (
            #[trigger] candidates(recs, ctx, broad, h)[i]).principal is None,
    decreases recs.len(),
{
    if recs.len() > 0 {
        lemma_no_principal(recs.drop_last(), ctx, broad, h);
    }
}

/// The posture map is about nobody in particular: no finding names a principal.
pub proof fn posture_names_no_principal<C: RemediationContext>(
    out: Seq<taxonomy::FindingView>,
    recs: Seq<index::RecordView>,
    ctx: &C,
    broad: Seq<Seq<char>>,
    h: HostFacts,
)
    requires
        posture(out, candidates(recs, ctx, broad, h)),
    ensures
        forall|i: int| 0 <= i < out.len() ==> (#[trigger] out[i]).principal is None,
{
    let cands = candidates(recs, ctx, broad, h);
    lemma_no_principal(recs, ctx, broad, h);
    assert forall|i: int| 0 <= i < out.len() implies (#[trigger] out[i]).principal is None by {
        let c = lemma_kept_index(cands, out[i]);
        reveal(is_kept);
        assert(cands[c].principal is None);
    }
}

/// No two findings of a posture map are on the same path by the same way with the same
/// risk.
pub proof fn posture_keys_are_unique(
    out: Seq<taxonomy::FindingView>,
    cands: Seq<taxonomy::FindingView>,
    i: int,
    j: int,
)
    requires
        posture(out, cands),
        0 <= i < j < out.len(),
    ensures
        !same_key(out[i], out[j]),
{
    lemma_key_order(out[i], out[j], out[j]);
}

/// Nothing is lost: every candidate is on the map, at its severity or a higher one.
pub proof fn posture_keeps_the_highest(
    out: Seq<taxonomy::FindingView>,
    cands: Seq<taxonomy::FindingView>,
    c: int,
)
    requires
        posture(out, cands),
        0 <= c < cands.len(),
    ensures
        exists|i: int|
            0 <= i < out.len() && same_key(#[trigger] out[i], cands[c])
                && out[i].severity.weight() >= cands[c].severity.weight(),
{
    assert(has_key(out, cands[c]));
    let i = lemma_key_index(out, cands[c]);
    let k = lemma_kept_index(cands, out[i]);
    lemma_key_order(out[i], cands[c], cands[c]);
    assert(same_key(cands[c], cands[k]));
}

/// What the axes say of a record is a candidate.
proof fn lemma_candidate<C: RemediationContext>(
    recs: Seq<index::RecordView>,
    ctx: &C,
    broad: Seq<Seq<char>>,
    h: HostFacts,
    k: int,
    n: int,
) -> (c: int)
    requires
        0 <= k < recs.len(),
        0 <= n < record_posture(recs[k], ctx, broad, h).len(),
    ensures
        0 <= c < candidates(recs, ctx, broad, h).len(),
        candidates(recs, ctx, broad, h)[c] == record_posture(recs[k], ctx, broad, h)[n],
    decreases recs.len(),
{
    let before = recs.drop_last();
    if k < before.len() {
        lemma_candidate(before, ctx, broad, h, k, n)
    } else {
        candidates(before, ctx, broad, h).len() + n
    }
}

/// Nothing hides: whatever the axes say of an indexed inode is on the map, at its severity
/// or a higher one.
pub proof fn posture_misses_nothing<C: RemediationContext>(
    out: Seq<taxonomy::FindingView>,
    recs: Seq<index::RecordView>,
    ctx: &C,
    broad: Seq<Seq<char>>,
    h: HostFacts,
    k: int,
    f: taxonomy::FindingView,
)
    requires
        posture(out, candidates(recs, ctx, broad, h)),
        0 <= k < recs.len(),
        record_posture(recs[k], ctx, broad, h).contains(f),
    ensures
        exists|i: int|
            0 <= i < out.len() && same_key(#[trigger] out[i], f) && out[i].severity.weight()
                >= f.severity.weight(),
{
    let found = record_posture(recs[k], ctx, broad, h);
    let n = choose|n: int| 0 <= n < found.len() && found[n] == f;
    let c = lemma_candidate(recs, ctx, broad, h, k, n);
    posture_keeps_the_highest(out, candidates(recs, ctx, broad, h), c);
}

/// Findings kept of the same key are the same.
proof fn lemma_kept_once(
    cands: Seq<taxonomy::FindingView>,
    a: taxonomy::FindingView,
    b: taxonomy::FindingView,
)
    requires
        is_kept(cands, a),
        is_kept(cands, b),
        same_key(a, b),
    ensures
        a == b,
{
    let i = lemma_kept_index(cands, a);
    let j = lemma_kept_index(cands, b);
    lemma_key_order(a, b, b);
    assert(same_key(cands[i], cands[j]));
    assert(same_key(cands[j], cands[i]));
}

/// Each finding of a map is on every other map of the same candidates.
proof fn lemma_same_findings(
    a: Seq<taxonomy::FindingView>,
    b: Seq<taxonomy::FindingView>,
    cands: Seq<taxonomy::FindingView>,
    i: int,
) -> (j: int)
    requires
        posture(a, cands),
        posture(b, cands),
        0 <= i < a.len(),
    ensures
        0 <= j < b.len(),
        b[j] == a[i],
{
    assert(is_kept(cands, a[i]));
    let c = lemma_kept_index(cands, a[i]);
    assert(has_key(b, cands[c]));
    let j = lemma_key_index(b, cands[c]);
    assert(is_kept(cands, b[j]));
    lemma_kept_once(cands, b[j], a[i]);
    j
}

/// On the maps of the same candidates, the findings up to a place agree.
proof fn lemma_same_prefix(
    a: Seq<taxonomy::FindingView>,
    b: Seq<taxonomy::FindingView>,
    cands: Seq<taxonomy::FindingView>,
    n: int,
)
    requires
        posture(a, cands),
        posture(b, cands),
        0 <= n <= a.len(),
    ensures
        n <= b.len(),
        forall|i: int| 0 <= i < n ==> #[trigger] a[i] == b[i],
    decreases n,
{
    if n > 0 {
        let k = n - 1;
        lemma_same_prefix(a, b, cands, k);
        let j = lemma_same_findings(a, b, cands, k);
        if j < k {
            assert(a[j] == b[j]);
            lemma_key_order(a[j], a[k], a[k]);
            assert(key_lt(a[j], a[k]));
        } else if j > k {
            let m = lemma_same_findings(b, a, cands, k);
            if m < k {
                assert(a[m] == b[m]);
                assert(key_lt(b[m], b[k]));
                lemma_key_order(b[m], b[k], b[k]);
            } else if m > k {
                assert(key_lt(a[k], a[m]));
                assert(key_lt(b[k], b[j]));
                lemma_key_order(a[k], a[m], a[k]);
                lemma_key_order(a[k], a[k], a[k]);
            }
        }
    }
}

/// The posture map is determined by its candidates: no two lists keep the highest of each
/// key, in order.
pub proof fn posture_is_determined(
    a: Seq<taxonomy::FindingView>,
    b: Seq<taxonomy::FindingView>,
    cands: Seq<taxonomy::FindingView>,
)
    requires
        posture(a, cands),
        posture(b, cands),
    ensures
        a == b,
{
    lemma_same_prefix(a, b, cands, a.len() as int);
    lemma_same_prefix(b, a, cands, b.len() as int);
    assert(a =~= b);
}

/// A setuid or setgid binary is always listed: as an escalation, high where the world may
/// write it.
pub proof fn setuid_binaries_are_always_listed<C: RemediationContext>(
    rec: index::RecordView,
    ctx: &C,
    broad: Seq<Seq<char>>,
    h: HostFacts,
)
    requires
        rec.class is SetuidBinary,
    ensures
        setuid_inventory(rec) matches Some(f) && f.risk is Escalation && (f.severity is High
            <==> world_bits(rec.mode).write) && record_posture(rec, ctx, broad, h).contains(f),
        world_writable(rec, ctx) is None,
{
    let f = setuid_inventory(rec)->0;
    let n = as_list(world_writable(rec, ctx)).len() as int;
    assert(record_posture(rec, ctx, broad, h)[n] == f);
}

/// Scratch space is no finding of its own: what is of no class is reported only where a
/// broad group may write it.
pub proof fn scratch_is_reported_only_by_group<C: RemediationContext>(
    rec: index::RecordView,
    ctx: &C,
)
    requires
        rec.class is Generic,
    ensures
        world_writable(rec, ctx) is None,
        setuid_inventory(rec) is None,
        readable_secret(rec, ctx) is None,
{
}

/// The groups that are broad where no others are given.
pub proof fn the_default_broad_groups(name: Seq<char>)
    ensures
        text::str_views(DEFAULT_BROAD_GROUPS@).contains(name) <==> {
            ||| name == "adm"@
            ||| name == "wheel"@
            ||| name == "sudo"@
            ||| name == "staff"@
            ||| name == "users"@
        },
{
    let t = text::str_views(DEFAULT_BROAD_GROUPS@);
    assert(t[0] == "adm"@);
    assert(t[1] == "wheel"@);
    assert(t[2] == "sudo"@);
    assert(t[3] == "staff"@);
    assert(t[4] == "users"@);
    assert(t.len() == 5);
}

/// What the owning group may do: what the mode's group digit says, where there is no ACL.
/// With one, what the first owning-group entry says (or the digit, without such an entry)
/// and the first mask too, where there is one.
pub proof fn the_owning_group_within_the_mask(rec: index::RecordView)
    ensures
        ({
            let digit = AclPerms {
                read: rec.mode & 0o040 != 0,
                write: rec.mode & 0o020 != 0,
                execute: rec.mode & 0o010 != 0,
            };
            match rec.acl {
                None => owning_group_bits(rec) == digit,
                Some(entries) => {
                    let own = match access::perms_for(entries, acl::TagView::GroupObj) {
                        Some(p) => p,
                        None => digit,
                    };
                    match access::perms_for(entries, acl::TagView::Mask) {
                        None => owning_group_bits(rec) == own,
                        Some(mask) => owning_group_bits(rec) == (AclPerms {
                            read: own.read && mask.read,
                            write: own.write && mask.write,
                            execute: own.execute && mask.execute,
                        }),
                    }
                },
            }
        }),
{
    access::mode_triples_by_octal_digit(rec.mode);
}

/// Whether a finding is one of world write: the object is of a class that the world must not
/// write, the mode lets it, and the finding says so. It tampers with configuration and
/// escalates on all else.
pub open spec fn says_world_write(rec: index::RecordView, f: taxonomy::FindingView) -> bool {
    &&& rec.class is Cron || rec.class is Sudoers || rec.class is SystemdUnit || rec.class is Config
        || rec.class is PathBinary || rec.class is Secret
    &&& rec.mode & 0o002 != 0
    &&& f.principal is None
    &&& f.path == rec.path
    &&& f.class == rec.class
    &&& f.why is OtherBits
    &&& f.access == (AclPerms {
        read: rec.mode & 0o004 != 0,
        write: true,
        execute: rec.mode & 0o001 != 0,
    })
    &&& rec.class is Config ==> f.risk is Tamper && f.severity is Medium
    &&& !(rec.class is Config) ==> f.risk is Escalation && f.severity is High
    &&& f.remediation_class is Ambient
    &&& f.hint == "remove world write manually: `chmod o-w "@ + rec.path + "`"@
}

/// Whether a finding is one of the setuid and setgid inventory.
pub open spec fn says_setid(rec: index::RecordView, f: taxonomy::FindingView) -> bool {
    &&& rec.class is SetuidBinary
    &&& f == (taxonomy::FindingView {
        principal: None,
        path: rec.path,
        access: AclPerms {
            read: rec.mode & 0o004 != 0,
            write: rec.mode & 0o002 != 0,
            execute: rec.mode & 0o001 != 0,
        },
        why: access::ViaView::OtherBits,
        class: rec.class,
        risk: Risk::Escalation,
        severity: if rec.mode & 0o002 != 0 {
            Severity::High
        } else {
            Severity::Medium
        },
        remediation_class: RemediationClass::Ambient,
        hint: if rec.mode & 0o002 != 0 {
            "writable setuid/setgid binary — remove world write manually (`chmod o-w "@ + rec.path
                + "`) and investigate why it is writable"@
        } else {
            "setuid/setgid binary — verify it is expected and package-owned: `"@ + rec.path + "`"@
        },
    })
}

/// Whether a finding is one of a secret that the world can read.
pub open spec fn says_world_read(rec: index::RecordView, f: taxonomy::FindingView) -> bool {
    &&& rec.class is Secret
    &&& rec.mode & 0o004 != 0
    &&& f == (taxonomy::FindingView {
        principal: None,
        path: rec.path,
        access: AclPerms { read: true, write: false, execute: false },
        why: access::ViaView::OtherBits,
        class: rec.class,
        risk: Risk::Leak,
        severity: Severity::High,
        remediation_class: RemediationClass::Ambient,
        hint: "remove world read of a secret manually: `chmod 640 "@ + rec.path + "`"@,
    })
}

/// Whether a finding is one of an object that a broad group may write: the owning group is
/// known by a broad name, and its effective bits have write.
pub open spec fn says_broad_group(
    rec: index::RecordView,
    broad: Seq<Seq<char>>,
    h: HostFacts,
    f: taxonomy::FindingView,
) -> bool {
    &&& inspect::name_with_gid(h.groups.seq(), rec.gid) matches Some(name) && broad.contains(name)
        && f.why == access::ViaView::Group(name)
    &&& owning_group_bits(rec).write
    &&& f.principal is None
    &&& f.path == rec.path
    &&& f.class == rec.class
    &&& f.access == owning_group_bits(rec)
    &&& rec.class is Config ==> f.risk is Tamper && f.severity is Medium
    &&& rec.class is Generic ==> f.risk is Tamper && f.severity is Low
    &&& !(rec.class is Config) && !(rec.class is Generic) ==> f.risk is Escalation
        && f.severity is High
}

/// What the four axes say of a record: nothing but world write to a class that must not
/// have it, the setuid and setgid inventory, a secret that the world can read, and write by
/// a broad owning group; and each of these where it holds.
pub proof fn the_axes_say_what_holds<C: RemediationContext>(
    rec: index::RecordView,
    ctx: &C,
    broad: Seq<Seq<char>>,
    h: HostFacts,
)
    ensures
        forall|f: taxonomy::FindingView| #[trigger]
            record_posture(rec, ctx, broad, h).contains(f) ==> says_world_write(rec, f)
                || says_setid(rec, f) || says_world_read(rec, f) || says_broad_group(
                rec,
                broad,
                h,
                f,
            ),
        (rec.class is Cron || rec.class is Sudoers || rec.class is SystemdUnit
            || rec.class is Config || rec.class is PathBinary || rec.class is Secret) && rec.mode
            & 0o002 != 0 ==> exists|f: taxonomy::FindingView| #[trigger]
            record_posture(rec, ctx, broad, h).contains(f) && says_world_write(rec, f),
        rec.class is SetuidBinary ==> exists|f: taxonomy::FindingView| #[trigger]
            record_posture(rec, ctx, broad, h).contains(f) && says_setid(rec, f),
        rec.class is Secret && rec.mode & 0o004 != 0 ==> exists|f: taxonomy::FindingView|
         #[trigger]
            record_posture(rec, ctx, broad, h).contains(f) && says_world_read(rec, f),
        (inspect::name_with_gid(h.groups.seq(), rec.gid) matches Some(name) && broad.contains(name)
            && owning_group_bits(rec).write) ==> exists|f: taxonomy::FindingView| #[trigger]
            record_posture(rec, ctx, broad, h).contains(f) && says_broad_group(rec, broad, h, f),
{
    access::mode_triples_by_octal_digit(rec.mode);
    let a = as_list(world_writable(rec, ctx));
    let b = as_list(setuid_inventory(rec));
    let c = as_list(readable_secret(rec, ctx));
    let d = as_list(broad_group_writable(rec, ctx, broad, h));
    let all = record_posture(rec, ctx, broad, h);
    if let Some(name) = inspect::name_with_gid(h.groups.seq(), rec.gid) {
        text::listed_is_contained(broad, name);
    }
    assert(a.len() > 0 ==> says_world_write(rec, a[0]));
    assert(b.len() > 0 ==> says_setid(rec, b[0]));
    assert(c.len() > 0 ==> says_world_read(rec, c[0]));
    assert(d.len() > 0 ==> says_broad_group(rec, broad, h, d[0]));
    assert forall|f: taxonomy::FindingView| #[trigger] all.contains(f) implies says_world_write(
        rec,
        f,
    ) || says_setid(rec, f) || says_world_read(rec, f) || says_broad_group(rec, broad, h, f) by {
        let i = choose|i: int| 0 <= i < all.len() && all[i] == f;
        if i < a.len() {
            assert(f == a[i]);
        } else if i < a.len() + b.len() {
            assert(f == b[i - a.len()]);
        } else if i < a.len() + b.len() + c.len() {
            assert(f == c[i - a.len() - b.len()]);
        } else {
            assert(f == d[i - a.len() - b.len() - c.len()]);
        }
    }
    if a.len() > 0 {
        assert(all[0] == a[0]);
        assert(all.contains(a[0]));
    }
    if b.len() > 0 {
        assert(all[a.len() as int] == b[0]);
        assert(all.contains(b[0]));
    }
    if c.len() > 0 {
        assert(all[(a.len() + b.len()) as int] == c[0]);
        assert(all.contains(c[0]));
    }
    if d.len() > 0 {
        assert(all[(a.len() + b.len() + c.len()) as int] == d[0]);
        assert(all.contains(d[0]));
    }
}

/// Only the other bits have the token of the other bits.
proof fn lemma_other_bits_token(why: access::ViaView)
    ensures
        why.text() == access::ViaView::OtherBits.text() ==> why is OtherBits,
{
    reveal_strlit("owner");
    reveal_strlit("acl_user:");
    reveal_strlit("acl_group:");
    reveal_strlit("group:");
    reveal_strlit("other_bits");
    assert("other_bits"@[0] == 'o' && "other_bits"@.len() == 10 && "owner"@.len() == 5);
    match why {
        access::ViaView::AclUser(u) => {
            assert(("acl_user:"@ + u)[0] == 'a');
        },
        access::ViaView::AclGroup(g) => {
            assert(("acl_group:"@ + g)[0] == 'a');
        },
        access::ViaView::Group(g) => {
            assert(("group:"@ + g)[0] == 'g');
        },
        _ => {},
    }
}

/// World write to an object that the world must not write is on the map: under its path, by
/// the other bits, as tampering where it is configuration and as escalation where it is a
/// cron job, the privilege policy, a service definition, a binary on a `PATH` or a secret.
pub proof fn world_writable_objects_are_on_the_map<C: RemediationContext>(
    out: Seq<taxonomy::FindingView>,
    recs: Seq<index::RecordView>,
    ctx: &C,
    broad: Seq<Seq<char>>,
    h: HostFacts,
    k: int,
)
    requires
        posture(out, candidates(recs, ctx, broad, h)),
        0 <= k < recs.len(),
        recs[k].class is Cron || recs[k].class is Sudoers || recs[k].class is SystemdUnit
            || recs[k].class is Config || recs[k].class is PathBinary || recs[k].class is Secret,
        recs[k].mode & 0o002 != 0,
    ensures
        exists|i: int|
            {
                &&& 0 <= i < out.len()
                &&& (#[trigger] out[i]).path == recs[k].path
                &&& out[i].why is OtherBits
                &&& recs[k].class is Config ==> out[i].risk is Tamper && !(out[i].severity is Low)
                &&& !(recs[k].class is Config) ==> out[i].risk is Escalation
                    && out[i].severity is High
            },
{
    let rec = recs[k];
    the_axes_say_what_holds(rec, ctx, broad, h);
    let f = choose|f: taxonomy::FindingView| #[trigger]
        record_posture(rec, ctx, broad, h).contains(f) && says_world_write(rec, f);
    posture_misses_nothing(out, recs, ctx, broad, h, k, f);
    let i = choose|i: int|
        0 <= i < out.len() && same_key(#[trigger] out[i], f) && out[i].severity.weight()
            >= f.severity.weight();
    reveal(same_key);
    lemma_other_bits_token(out[i].why);
    assert(out[i].path == rec.path);
}

/// Every setuid and setgid binary is on the map, as an escalation by the other bits, and
/// every secret that the world can read is, as a leak.
pub proof fn setid_binaries_and_open_secrets_are_on_the_map<C: RemediationContext>(
    out: Seq<taxonomy::FindingView>,
    recs: Seq<index::RecordView>,
    ctx: &C,
    broad: Seq<Seq<char>>,
    h: HostFacts,
    k: int,
)
    requires
        posture(out, candidates(recs, ctx, broad, h)),
        0 <= k < recs.len(),
        recs[k].class is SetuidBinary || (recs[k].class is Secret && recs[k].mode & 0o004 != 0),
    ensures
        exists|i: int|
            {
                &&& 0 <= i < out.len()
                &&& (#[trigger] out[i]).path == recs[k].path
                &&& out[i].why is OtherBits
                &&& recs[k].class is SetuidBinary ==> out[i].risk is Escalation && !(
                out[i].severity is Low) && (recs[k].mode & 0o002 != 0 ==> out[i].severity is High)
                &&& recs[k].class is Secret ==> out[i].risk is Leak && out[i].severity is High
            },
{
    let rec = recs[k];
    the_axes_say_what_holds(rec, ctx, broad, h);
    let f = choose|f: taxonomy::FindingView| #[trigger]
        record_posture(rec, ctx, broad, h).contains(f) && (says_setid(rec, f) || says_world_read(
            rec,
            f,
        ));
    posture_misses_nothing(out, recs, ctx, broad, h, k, f);
    let i = choose|i: int|
        0 <= i < out.len() && same_key(#[trigger] out[i], f) && out[i].severity.weight()
            >= f.severity.weight();
    reveal(same_key);
    lemma_other_bits_token(out[i].why);
    assert(out[i].path == rec.path);
}

/// What a broad owning group may write is on the map, under the name of that group.
pub proof fn broad_group_writes_are_on_the_map<C: RemediationContext>(
    out: Seq<taxonomy::FindingView>,
    recs: Seq<index::RecordView>,
    ctx: &C,
    broad: Seq<Seq<char>>,
    h: HostFacts,
    k: int,
)
    requires
        posture(out, candidates(recs, ctx, broad, h)),
        0 <= k < recs.len(),
        inspect::name_with_gid(h.groups.seq(), recs[k].gid) matches Some(name) && broad.contains(
            name,
        ),
        owning_group_bits(recs[k]).write,
    ensures
        exists|i: int|
            {
                &&& 0 <= i < out.len()
                &&& (#[trigger] out[i]).path == recs[k].path
                &&& out[i].why.text() == "group:"@ + inspect::name_with_gid(
                    h.groups.seq(),
                    recs[k].gid,
                )->0
                &&& out[i].risk is Tamper <==> recs[k].class is Config || recs[k].class is Generic
                &&& !(out[i].risk is Leak)
            },
{
    let rec = recs[k];
    the_axes_say_what_holds(rec, ctx, broad, h);
    let f = choose|f: taxonomy::FindingView| #[trigger]
        record_posture(rec, ctx, broad, h).contains(f) && says_broad_group(rec, broad, h, f);
    posture_misses_nothing(out, recs, ctx, broad, h, k, f);
    let i = choose|i: int|
        0 <= i < out.len() && same_key(#[trigger] out[i], f) && out[i].severity.weight()
            >= f.severity.weight();
    reveal(same_key);
    assert(out[i].path == rec.path);
}

/// A candidate is what the axes say of some record.
proof fn lemma_candidate_from<C: RemediationContext>(
    recs: Seq<index::RecordView>,
    ctx: &C,
    broad: Seq<Seq<char>>,
    h: HostFacts,
    c: int,
) -> (k: int)
    requires
        0 <= c < candidates(recs, ctx, broad, h).len(),
    ensures
        0 <= k < recs.len(),
        record_posture(recs[k], ctx, broad, h).contains(candidates(recs, ctx, broad, h)[c]),
    decreases recs.len(),
{
    let before = candidates(recs.drop_last(), ctx, broad, h);
    if c < before.len() {
        let k = lemma_candidate_from(recs.drop_last(), ctx, broad, h, c);
        assert(recs.drop_last()[k] == recs[k]);
        k
    } else {
        let last = record_posture(recs.last(), ctx, broad, h);
        assert(candidates(recs, ctx, broad, h)[c] == last[c - before.len()]);
        assert(last.contains(last[c - before.len()]));
        recs.len() - 1
    }
}

/// Whatever is on the map holds of some indexed inode.
pub proof fn the_map_says_only_what_holds<C: RemediationContext>(
    out: Seq<taxonomy::FindingView>,
    recs: Seq<index::RecordView>,
    ctx: &C,
    broad: Seq<Seq<char>>,
    h: HostFacts,
    i: int,
)
    requires
        posture(out, candidates(recs, ctx, broad, h)),
        0 <= i < out.len(),
    ensures
        exists|k: int|
            0 <= k < recs.len() && {
                ||| says_world_write(#[trigger] recs[k], out[i])
                ||| says_setid(recs[k], out[i])
                ||| says_world_read(recs[k], out[i])
                ||| says_broad_group(recs[k], broad, h, out[i])
            },
{
    let cands = candidates(recs, ctx, broad, h);
    assert(is_kept(cands, out[i]));
    let c = lemma_kept_index(cands, out[i]);
    let k = lemma_candidate_from(recs, ctx, broad, h, c);
    the_axes_say_what_holds(recs[k], ctx, broad, h);
    assert(record_posture(recs[k], ctx, broad, h).contains(out[i]));
}

/// The map is in order of paths, of the reasons' tokens on one path, and of the risks'
/// tokens for one reason; no two of its findings agree in all three.
pub proof fn the_map_is_in_order(
    out: Seq<taxonomy::FindingView>,
    cands: Seq<taxonomy::FindingView>,
    i: int,
    j: int,
)
    requires
        posture(out, cands),
        0 <= i < j < out.len(),
    ensures
        ({
            ||| text::text_lt(out[i].path, out[j].path)
            ||| out[i].path == out[j].path && text::text_lt(out[i].why.text(), out[j].why.text())
            ||| out[i].path == out[j].path && out[i].why.text() == out[j].why.text()
                && text::text_lt(out[i].risk.text(), out[j].risk.text())
        }),
{
    assert(key_lt(out[i], out[j]));
    reveal(key_lt);
}

/// Findings are told apart by path, reason and risk: where two candidates differ in one of
/// them, both have a place on the map.
pub proof fn different_findings_stay_apart(
    out: Seq<taxonomy::FindingView>,
    cands: Seq<taxonomy::FindingView>,
    a: int,
    b: int,
)
    requires
        posture(out, cands),
        0 <= a < cands.len(),
        0 <= b < cands.len(),
        cands[a].path != cands[b].path || cands[a].why.text() != cands[b].why.text()
            || cands[a].risk != cands[b].risk,
    ensures
        exists|i: int, j: int|
            {
                &&& 0 <= i < out.len()
                &&& 0 <= j < out.len()
                &&& i != j
                &&& (#[trigger] out[i]).path == cands[a].path
                &&& out[i].why.text() == cands[a].why.text()
                &&& out[i].risk == cands[a].risk
                &&& (#[trigger] out[j]).path == cands[b].path
                &&& out[j].why.text() == cands[b].why.text()
                &&& out[j].risk == cands[b].risk
            },
{
    assert(has_key(out, cands[a]));
    assert(has_key(out, cands[b]));
    let i = lemma_key_index(out, cands[a]);
    let j = lemma_key_index(out, cands[b]);
    reveal(same_key);
    assert(out[i].path == cands[a].path);
    assert(out[j].path == cands[b].path);
}

/// A candidate is kept where no other of its path, reason and risk is more severe, and none
/// that is as severe comes before it; only such a candidate is on the map.
pub proof fn the_first_of_the_most_severe_is_kept(
    out: Seq<taxonomy::FindingView>,
    cands: Seq<taxonomy::FindingView>,
    i: int,
)
    requires
        posture(out, cands),
        0 <= i < out.len(),
    ensures
        exists|c: int|
            {
                &&& 0 <= c < cands.len()
                &&& (#[trigger] cands[c]) == out[i]
                &&& forall|j: int|
                    0 <= j < cands.len() && (#[trigger] cands[j]).path == cands[c].path
                        && cands[j].why.text() == cands[c].why.text() && cands[j].risk
                        == cands[c].risk ==> {
                        &&& cands[j].severity.weight() <= cands[c].severity.weight()
                        &&& j < c ==> cands[j].severity.weight() < cands[c].severity.weight()
                    }
            },
{
    assert(is_kept(cands, out[i]));
    let c = lemma_kept_index(cands, out[i]);
    reveal(same_key);
    assert(cands[c] == out[i]);
}

} // verus!
