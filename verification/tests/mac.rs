use census::exposure::mac::{
    FakeMacProvider, MacAccessKind, MacContextId, MacLabelId, MacProvider, MacSystem,
    NullMacProvider,
};

#[test]
fn mac_system_token_and_display() {
    assert_eq!(MacSystem::Parsec.as_str(), "parsec");
    assert_eq!(MacSystem::Selinux.as_str(), "selinux");
    assert_eq!(MacSystem::Parsec.as_str(), "parsec");
    assert_eq!(MacSystem::Selinux.as_str(), "selinux");
}

#[test]
fn mac_access_kind_token_and_display() {
    assert_eq!(MacAccessKind::Read.as_str(), "read");
    assert_eq!(MacAccessKind::Write.as_str(), "write");
    assert_eq!(MacAccessKind::Execute.as_str(), "execute");
    assert_eq!(MacAccessKind::Write.as_str(), "write");
}

#[test]
fn null_provider_is_neutral_and_inactive() {
    let null = NullMacProvider;
    assert!(!null.is_active(), "null provider signals no real backend");
    assert_eq!(
        null.object_label("/etc/shadow"),
        None,
        "null provider labels nothing"
    );
    assert!(
        null.principal_contexts(1000).is_empty(),
        "null provider exposes no contexts"
    );
    // permits is unconditionally true, so the composite layer keeps
    // every DAC finding — behaviour identical to a DAC-only build.
    let ctx = MacContextId::new(0);
    let label = MacLabelId::new(0);
    for access in [
        MacAccessKind::Read,
        MacAccessKind::Write,
        MacAccessKind::Execute,
    ] {
        assert!(null.permits(ctx, label, access), "null permits {access:?}");
    }
}

#[test]
fn fake_provider_returns_configured_labels_and_contexts() {
    let mut fake = FakeMacProvider::new(MacSystem::Parsec);
    let secret = MacLabelId::new(7);
    let ctx_hi = MacContextId::new(1);
    fake.with_label("/etc/shadow", secret, "0:0:0:CCNR")
        .with_context(1000, ctx_hi, "svc_t");

    assert_eq!(fake.system(), MacSystem::Parsec);
    assert!(fake.is_active(), "the fake stands in for a real backend");
    assert_eq!(fake.object_label("/etc/shadow"), Some(secret));
    assert_eq!(fake.object_label("/etc/hosts"), None, "unlabeled path");
    assert_eq!(fake.principal_contexts(1000), vec![ctx_hi]);
    assert!(
        fake.principal_contexts(2000).is_empty(),
        "a uid with no configured contexts yields an empty set"
    );
    assert_eq!(fake.render_label(secret), "0:0:0:CCNR");
    assert_eq!(fake.render_context(ctx_hi), "svc_t");
}

#[test]
fn fake_permit_table_defaults_to_deny() {
    let mut fake = FakeMacProvider::new(MacSystem::Selinux);
    let label = MacLabelId::new(3);
    let ctx = MacContextId::new(4);
    // Never set → denied (default-deny mandatory model).
    assert!(!fake.permits(ctx, label, MacAccessKind::Write));
    fake.set_permit(ctx, label, MacAccessKind::Write, true);
    assert!(fake.permits(ctx, label, MacAccessKind::Write));
    // A different access kind on the same pair is still denied.
    assert!(!fake.permits(ctx, label, MacAccessKind::Read));
}

#[test]
fn core_runs_opaque_handles_through_permit_and_render_without_parsing() {
    // This exercises exactly what the composite layer does, inline, to
    // prove the core treats the handles as opaque: it takes whatever
    // `object_label`/`principal_contexts` return, feeds them straight to `permits`
    // and `render_context`, and never inspects or orders them. The two contexts
    // are deliberately non-lattice (no precedence): the principal is reachable in
    // exactly one of them, and the filter neither assumes nor needs an order.
    let mut fake = FakeMacProvider::new(MacSystem::Selinux);
    let label = MacLabelId::new(42);
    let ctx_low = MacContextId::new(10);
    let ctx_high = MacContextId::new(11);
    fake.with_label("/srv/secret", label, "secret_t")
        .with_context(1000, ctx_low, "low_t")
        .with_context(1000, ctx_high, "high_t")
        // Permitted only in the high context; blocked in the low one.
        .set_permit(ctx_high, label, MacAccessKind::Read, true)
        .set_permit(ctx_low, label, MacAccessKind::Read, false);

    let object = fake
        .object_label("/srv/secret")
        .expect("the object is labeled");
    let reachable: Vec<String> = fake
        .principal_contexts(1000)
        .into_iter()
        .filter(|ctx| fake.permits(*ctx, object, MacAccessKind::Read))
        .map(|ctx| fake.render_context(ctx))
        .collect();

    assert_eq!(
        reachable,
        vec!["high_t".to_owned()],
        "access holds only in the high context; the core selected it by permit \
         alone, without interpreting or ordering the opaque handles"
    );
}

#[test]
fn opaque_ids_expose_only_the_interning_index_not_a_parse() {
    // The handles carry a backend interning index and nothing else — no way to
    // read a label's meaning out of them. `as_u32` is the raw index escape hatch,
    // distinct from the human rendering which only the provider can produce.
    let label = MacLabelId::new(99);
    let ctx = MacContextId::new(5);
    assert_eq!(label.as_u32(), 99);
    assert_eq!(ctx.as_u32(), 5);
    // Unrendered handles fall back to a synthetic token, never a parsed label.
    let fake = FakeMacProvider::new(MacSystem::Parsec);
    assert_eq!(fake.render_label(label), "label#99");
    assert_eq!(fake.render_context(ctx), "ctx#5");
}

#[test]
fn null_provider_is_usable_as_a_trait_object_default() {
    // The design threads an always-present `&dyn MacProvider`; the null provider
    // is the default, and callers branch on `is_active`.
    let provider: &dyn MacProvider = &NullMacProvider;
    assert!(!provider.is_active());
    assert_eq!(provider.object_label("/anything"), None);
}

#[test]
fn later_labels_and_permits_replace_earlier_ones() {
    let mut fake = FakeMacProvider::new(MacSystem::Parsec);
    let (old, new) = (MacLabelId::new(1), MacLabelId::new(2));
    let ctx = MacContextId::new(3);
    fake.with_label("/x", old, "old").with_label("/x", new, "new");
    fake.set_permit(ctx, new, MacAccessKind::Read, true)
        .set_permit(ctx, new, MacAccessKind::Read, false);
    assert_eq!(fake.object_label("/x"), Some(new));
    assert!(!fake.permits(ctx, new, MacAccessKind::Read));
}
