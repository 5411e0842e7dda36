//! Finding taxonomy: classify an inode, derive its risk and severity, and decide the
//! remediation path.
//!
//! Classification follows a fixed precedence, highest first:
//!
//! `setuid-binary > sudoers > cron > systemd-unit > secret > path-binary > config >
//! generic`
//!
//! A read of a non-secret object is deliberately not a finding (everyone can read
//! `/usr/bin`); only writes, and reads of secrets, are reported.

use vstd::prelude::*;

use crate::coverage::policy;
use crate::exposure::access;
use crate::exposure::access::AccessVia;
use crate::exposure::acl::AclPerms;
use crate::exposure::glob;
use crate::exposure::index;
use crate::exposure::index::InodeRecord;
use crate::exposure::ObjectClass;
use crate::inspect;
use crate::text;

verus! {

broadcast use vstd::string::group_string_axioms;

// ---------------------------------------------------------------------------
// Object classes
// ---------------------------------------------------------------------------

/// Unix mode mask selecting the file-type bits.
pub const S_IFMT: u32 = 0o170_000;

/// The file-type value for a directory.
pub const S_IFDIR: u32 = 0o040_000;

/// The file-type value for a regular file.
pub const S_IFREG: u32 = 0o100_000;

/// The setuid and setgid bits. Either one elevates the identity a binary runs as.
pub const SETID_BITS: u32 = 0o6000;

/// The privilege policy itself.
pub const SUDOERS_GLOBS: [&'static str; 2] = ["/etc/sudoers", "/etc/sudoers.d/**"];

/// Scheduled execution as another user.
pub const CRON_GLOBS: [&'static str; 3] = ["/var/spool/cron/**", "/etc/cron*/**", "/etc/crontab"];

/// Privileged service definitions.
pub const UNIT_GLOBS: [&'static str; 2] = ["/etc/systemd/**", "/lib/systemd/system/**"];

/// Binaries on a system `PATH`.
pub const PATH_BINARY_GLOBS: [&'static str; 4] = [
    "/usr/bin/**",
    "/bin/**",
    "/usr/local/bin/**",
    "/sbin/**",
];

/// The default secret-classifying globs (keys, credentials, the shadow database).
pub const DEFAULT_SECRET_GLOBS: [&'static str; 6] = [
    "/etc/shadow*",
    "**/*.key",
    "**/*.pem",
    "**/id_rsa*",
    "**/.env*",
    "**/*credentials*",
];

/// Whether `path` is an instance of some glob of the list.
pub open spec fn matches_some(globs: Seq<Seq<char>>, path: Seq<char>) -> bool {
    exists|i: int| 0 <= i < globs.len() && glob::glob(#[trigger] globs[i], path)
}

/// Whether a mode belongs to a regular file and carries a setuid or setgid bit. (A
/// setgid *directory* is the group-inheritance idiom.)
pub open spec fn elevates(mode: u32) -> bool {
    (mode & S_IFMT) == S_IFREG && (mode & SETID_BITS) != 0
}

/// The class of an object with this path and mode, where `secrets` classify secrets.
pub open spec fn class_of(secrets: Seq<Seq<char>>, path: Seq<char>, mode: u32) -> ObjectClass {
    if elevates(mode) {
        ObjectClass::SetuidBinary
    } else if matches_some(text::str_views(SUDOERS_GLOBS@), path) {
        ObjectClass::Sudoers
    } else if matches_some(text::str_views(CRON_GLOBS@), path) {
        ObjectClass::Cron
    } else if matches_some(text::str_views(UNIT_GLOBS@), path) {
        ObjectClass::SystemdUnit
    } else if matches_some(secrets, path) {
        ObjectClass::Secret
    } else if matches_some(text::str_views(PATH_BINARY_GLOBS@), path) {
        ObjectClass::PathBinary
    } else if policy::security_relevant(path) {
        ObjectClass::Config
    } else {
        ObjectClass::Generic
    }
}

/// The object-class classifier: the fixed glob tables plus a configurable set of
/// secret-classifying globs.
#[derive(Debug, Clone)]
pub struct Classifier {
    /// The secret-classifying globs.
    pub secret_globs: Vec<String>,
}

impl View for Classifier {
    type V = Seq<Seq<char>>;

    /// The secret-classifying globs.
    open spec fn view(&self) -> Seq<Seq<char>> {
        text::views(self.secret_globs@)
    }
}

impl Default for Classifier {
    /// The classifier with the built-in secret globs.
    fn default() -> (r: Self)
        ensures
            r@ == text::str_views(DEFAULT_SECRET_GLOBS@),
    {
        Classifier { secret_globs: text::owned_words(&DEFAULT_SECRET_GLOBS) }
    }
}

/// Whether `path` matches one of the globs.
fn any_glob(globs: &[String], path: &str) -> (r: bool)
    ensures
        r == matches_some(text::views(globs@), path@),
{
    let mut i: usize = 0;
    while i < globs.len()
        invariant
            i <= globs@.len(),
            forall|j: int|
                0 <= j < i ==> !glob::glob(#[trigger] text::views(globs@)[j], path@),
        decreases globs@.len() - i,
    {
        if glob::glob_match(&globs[i], path) {
            proof {
                assert(glob::glob(text::views(globs@)[i as int], path@));
            }
            return true;
        }
        i += 1;
    }
    false
}

/// Whether `path` matches one of the globs of a fixed table.
fn any_glob_of(globs: &[&'static str], path: &str) -> (r: bool)
    ensures
        r == matches_some(text::str_views(globs@), path@),
{
    let list = text::owned_words(globs);
    any_glob(list.as_slice(), path)
}

impl Classifier {
    /// Construct with an explicit secret-glob list.
    pub fn new(secret_globs: Vec<String>) -> (r: Self)
        ensures
            r@ == text::views(secret_globs@),
    {
        Classifier { secret_globs }
    }

    /// Classify an inode by its path and mode.
    ///
    /// A setuid/setgid regular file is [`ObjectClass::SetuidBinary`] regardless of path;
    /// a setgid *directory* is the inheritance idiom and is excluded. Otherwise the
    /// precedence is: the sudoers, cron and unit globs, then the secret globs, then the
    /// path binaries, then a security-relevant config prefix, else
    /// [`ObjectClass::Generic`].
    pub fn classify(&self, path: &str, mode: u32) -> (r: ObjectClass)
        ensures
            r == class_of(self@, path@, mode),
    {
        if (mode & S_IFMT) == S_IFREG && (mode & SETID_BITS) != 0 {
            return ObjectClass::SetuidBinary;
        }
        if any_glob_of(&SUDOERS_GLOBS, path) {
            return ObjectClass::Sudoers;
        }
        if any_glob_of(&CRON_GLOBS, path) {
            return ObjectClass::Cron;
        }
        if any_glob_of(&UNIT_GLOBS, path) {
            return ObjectClass::SystemdUnit;
        }
        if any_glob(self.secret_globs.as_slice(), path) {
            return ObjectClass::Secret;
        }
        if any_glob_of(&PATH_BINARY_GLOBS, path) {
            return ObjectClass::PathBinary;
        }
        if policy::is_security_relevant_config(path) {
            return ObjectClass::Config;
        }
        ObjectClass::Generic
    }
}

/// Classify an indexed inode with the built-in classifier.
pub fn classify_object(record: &InodeRecord) -> (r: ObjectClass)
    ensures
        r == class_of(
            text::str_views(DEFAULT_SECRET_GLOBS@),
            record.path@,
            record.mode,
        ),
{
    Classifier::default().classify(&record.path, record.mode)
}

/// Classify by path and mode with the built-in classifier.
pub fn classify_path_mode(path: &str, mode: u32) -> (r: ObjectClass)
    ensures
        r == class_of(text::str_views(DEFAULT_SECRET_GLOBS@), path@, mode),
{
    Classifier::default().classify(path, mode)
}

// ---------------------------------------------------------------------------
// Risk and severity
// ---------------------------------------------------------------------------

/// The kind of harm an exposure enables.
#[derive(Debug, Clone, Copy, PartialEq, Eq, Hash, Structural)]
pub enum Risk {
    /// Write access that lets the principal gain higher privilege.
    Escalation,
    /// Read access to a secret-bearing object (credential disclosure).
    Leak,
    /// Write access that lets the principal corrupt configuration or data without a
    /// direct privilege gain.
    Tamper,
}

impl Risk {
    /// The stable lowercase token of a risk.
    pub open spec fn text(self) -> Seq<char> {
        match self {
            Risk::Escalation => "escalation"@,
            Risk::Leak => "leak"@,
            Risk::Tamper => "tamper"@,
        }
    }

    /// The stable lowercase token (`escalation`, `leak`, `tamper`).
    pub fn as_str(self) -> (r: &'static str)
        ensures
            r@ == self.text(),
    {
        match self {
            Risk::Escalation => "escalation",
            Risk::Leak => "leak",
            Risk::Tamper => "tamper",
        }
    }
}

/// How urgently a finding warrants attention.
#[derive(Debug, Clone, Copy, PartialEq, Eq, Structural)]
pub enum Severity {
    /// Direct, high-impact exposure (escalation on a privileged class, secret leak).
    High,
    /// Meaningful but bounded (tamper of a security-relevant config).
    Medium,
    /// Low-impact (world-writable generic / scratch object).
    Low,
}

impl Severity {
    /// The stable lowercase token of a severity.
    pub open spec fn text(self) -> Seq<char> {
        match self {
            Severity::High => "high"@,
            Severity::Medium => "medium"@,
            Severity::Low => "low"@,
        }
    }

    /// The rank of a severity.
    pub open spec fn weight(self) -> u8 {
        match self {
            Severity::High => 3,
            Severity::Medium => 2,
            Severity::Low => 1,
        }
    }

    /// A numeric rank for ordering (`High` = 3 > `Medium` = 2 > `Low` = 1).
    pub fn rank(self) -> (r: u8)
        ensures
            r == self.weight(),
    {
        match self {
            Severity::High => 3,
            Severity::Medium => 2,
            Severity::Low => 1,
        }
    }

    /// The stable lowercase token (`high`, `medium`, `low`).
    pub fn as_str(self) -> (r: &'static str)
        ensures
            r@ == self.text(),
    {
        match self {
            Severity::High => "high",
            Severity::Medium => "medium",
            Severity::Low => "low",
        }
    }
}

/// Whether writing an object of this class lets a principal gain privilege.
pub open spec fn privileged(class: ObjectClass) -> bool {
    !(class is Config) && !(class is Generic)
}

/// The risk of an access to an object of this class, where it is one.
pub open spec fn risk_of(access: AclPerms, class: ObjectClass) -> Option<Risk> {
    if access.write {
        Some(
            if privileged(class) {
                Risk::Escalation
            } else {
                Risk::Tamper
            },
        )
    } else if access.read && class is Secret {
        Some(Risk::Leak)
    } else {
        None
    }
}

/// The severity of a risk to an object of this class.
pub open spec fn severity_of(class: ObjectClass, risk: Risk) -> Severity {
    if !(risk is Tamper) {
        Severity::High
    } else if class is Config {
        Severity::Medium
    } else {
        Severity::Low
    }
}

/// Derive the [`Risk`] of an access to a classified object, or `None` when the access
/// is not a reportable finding.
///
/// Write access escalates on the privileged classes and tampers on config and generic.
/// A read of a secret is a leak. A read of any non-secret object is not a finding, and
/// neither is an execute-only access.
pub fn derive_risk(access: AclPerms, class: ObjectClass) -> (r: Option<Risk>)
    ensures
        r == risk_of(access, class),
{
    if access.write {
        return Some(
            match class {
                ObjectClass::Config => Risk::Tamper,
                ObjectClass::Generic => Risk::Tamper,
                _ => Risk::Escalation,
            },
        );
    }
    match class {
        ObjectClass::Secret => if access.read {
            Some(Risk::Leak)
        } else {
            None
        },
        _ => None,
    }
}

/// Derive the [`Severity`] from the object class and the risk.
///
/// Escalation and secret-leak are always High. Tamper is Medium on a config object and
/// Low otherwise.
pub fn derive_severity(class: ObjectClass, risk: Risk) -> (r: Severity)
    ensures
        r == severity_of(class, risk),
{
    match risk {
        Risk::Escalation => Severity::High,
        Risk::Leak => Severity::High,
        Risk::Tamper => match class {
            ObjectClass::Config => Severity::Medium,
            _ => Severity::Low,
        },
    }
}

// ---------------------------------------------------------------------------
// Remediation
// ---------------------------------------------------------------------------

/// How a finding should be remediated.
#[derive(Debug, Clone, Copy, PartialEq, Eq, Structural)]
pub enum RemediationClass {
    /// The access comes from a foreign object; the hint is a manual `chmod` or
    /// `setfacl`.
    Ambient,
    /// The access comes from an object Census owns (a managed group, or a path under a
    /// file-access grant); the hint is to narrow the declaration.
    InModel,
}

impl RemediationClass {
    /// The stable lowercase token of a class.
    pub open spec fn text(self) -> Seq<char> {
        match self {
            RemediationClass::Ambient => "ambient"@,
            RemediationClass::InModel => "in-model"@,
        }
    }

    /// The stable lowercase token (`ambient`, `in-model`).
    pub fn as_str(self) -> (r: &'static str)
        ensures
            r@ == self.text(),
    {
        match self {
            RemediationClass::Ambient => "ambient",
            RemediationClass::InModel => "in-model",
        }
    }
}

/// The managed context a remediation decision needs: whether a group is managed, and
/// whether a path is covered by a file-access grant.
pub trait RemediationContext {
    /// Whether `group` is managed.
    spec fn manages(&self, group: Seq<char>) -> bool;

    /// The descriptor of the grant that covers `path`, if one does.
    spec fn grant_over(&self, path: Seq<char>) -> Option<Seq<char>>;

    /// Whether `group` is a group Census manages.
    fn is_managed_group(&self, group: &str) -> (r: bool)
        ensures
            r == self.manages(group@),
    ;

    /// The file-access grant covering `path`, as a descriptor for the hint.
    fn covering_grant(&self, path: &str) -> (r: Option<String>)
        ensures
            inspect::opt_text(r) == self.grant_over(path@),
    ;
}

/// A context that owns nothing, so every finding is `ambient`.
#[derive(Debug, Clone, Copy)]
pub struct NoManagedContext;

impl RemediationContext for NoManagedContext {
    open spec fn manages(&self, group: Seq<char>) -> bool {
        false
    }

    open spec fn grant_over(&self, path: Seq<char>) -> Option<Seq<char>> {
        None
    }

    fn is_managed_group(&self, group: &str) -> (r: bool) {
        false
    }

    fn covering_grant(&self, path: &str) -> (r: Option<String>) {
        None
    }
}

/// A remediation class with its hint.
#[verifier::ext_equal]
pub struct RemedyView {
    /// The class.
    pub class: RemediationClass,
    /// The hint.
    pub hint: Seq<char>,
}

/// The hint for an access through a managed group.
pub open spec fn group_hint(group: Seq<char>, path: Seq<char>) -> Seq<char> {
    "narrow the Census declaration of group `"@ + group + "`: its membership grants access to `"@
        + path + "` beyond what the role needs"@
}

/// The hint for an access through a file-access grant.
pub open spec fn grant_hint(grant: Seq<char>, path: Seq<char>) -> Seq<char> {
    "narrow the Census file-access grant `"@ + grant + "`: it covers `"@ + path
        + "`, which is wider than the role needs"@
}

/// The manual fix of an access through a foreign object.
pub open spec fn manual_hint(
    why: access::ViaView,
    path: Seq<char>,
    class: ObjectClass,
    access: AclPerms,
) -> Seq<char> {
    match why {
        access::ViaView::OtherBits => if access.write {
            "remove world write manually: `chmod o-w "@ + path + "`"@
        } else if class is Secret {
            "remove world read of a secret manually: `chmod 640 "@ + path + "`"@
        } else {
            "remove world read manually: `chmod o-rwx "@ + path + "`"@
        },
        access::ViaView::AclUser(u) => "remove the ACL entry manually: `setfacl -x u:"@ + u + " "@
            + path + "`"@,
        access::ViaView::AclGroup(g) => "remove the ACL entry manually: `setfacl -x g:"@ + g + " "@
            + path + "`"@,
        access::ViaView::Group(_) => if access.write {
            "remove group write manually: `chmod g-w "@ + path + "`"@
        } else {
            "restrict group access manually on `"@ + path + "`"@
        },
        access::ViaView::Owner => "review ownership of `"@ + path + "` (the principal owns it)"@,
    }
}

/// The managed group that an access is credited to.
pub open spec fn managed_group<C: RemediationContext>(
    why: access::ViaView,
    ctx: &C,
) -> Option<Seq<char>> {
    match why {
        access::ViaView::Group(g) => if ctx.manages(g) {
            Some(g)
        } else {
            None
        },
        access::ViaView::AclGroup(g) => if ctx.manages(g) {
            Some(g)
        } else {
            None
        },
        _ => None,
    }
}

/// The grant that an access flows through: only an ACL entry can come from one, so
/// world access below a granted directory does not count.
pub open spec fn grant_behind<C: RemediationContext>(
    why: access::ViaView,
    path: Seq<char>,
    ctx: &C,
) -> Option<Seq<char>> {
    if why is AclUser || why is AclGroup {
        ctx.grant_over(path)
    } else {
        None
    }
}

/// The remedy of an access.
pub open spec fn remedy<C: RemediationContext>(
    why: access::ViaView,
    path: Seq<char>,
    class: ObjectClass,
    access: AclPerms,
    ctx: &C,
) -> RemedyView {
    match managed_group(why, ctx) {
        Some(g) => RemedyView { class: RemediationClass::InModel, hint: group_hint(g, path) },
        None => match grant_behind(why, path, ctx) {
            Some(grant) => RemedyView {
                class: RemediationClass::InModel,
                hint: grant_hint(grant, path),
            },
            None => RemedyView {
                class: RemediationClass::Ambient,
                hint: manual_hint(why, path, class, access),
            },
        },
    }
}

/// Decide the [`RemediationClass`] and the concrete hint for an access.
///
/// In-model when the access is granted through a managed group, or through an ACL
/// entry on a path under a file-access grant; the hint then points at narrowing that
/// declaration. Otherwise ambient, with a concrete manual command.
pub fn remediation<C: RemediationContext>(
    via: &AccessVia,
    path: &str,
    class: ObjectClass,
    access: AclPerms,
    ctx: &C,
) -> (r: (RemediationClass, String))
    ensures
        r.0 == remedy(via@, path@, class, access, ctx).class,
        r.1@ == remedy(via@, path@, class, access, ctx).hint,
{
    match managed_group_of(via, ctx) {
        Some(group) => {
            let mut hint = "narrow the Census declaration of group `".to_owned();
            hint.append(&group);
            hint.append("`: its membership grants access to `");
            hint.append(path);
            hint.append("` beyond what the role needs");
            return (RemediationClass::InModel, hint);
        },
        None => {},
    }
    let through_entry = match via {
        AccessVia::AclUser(_) => true,
        AccessVia::AclGroup(_) => true,
        _ => false,
    };
    if through_entry {
        match ctx.covering_grant(path) {
            Some(grant) => {
                let mut hint = "narrow the Census file-access grant `".to_owned();
                hint.append(&grant);
                hint.append("`: it covers `");
                hint.append(path);
                hint.append("`, which is wider than the role needs");
                return (RemediationClass::InModel, hint);
            },
            None => {},
        }
    }
    (RemediationClass::Ambient, ambient_hint(via, path, class, access))
}

/// The managed group a `via` attributes the access to, if Census manages it.
fn managed_group_of<C: RemediationContext>(via: &AccessVia, ctx: &C) -> (r: Option<String>)
    ensures
        inspect::opt_text(r) == managed_group(via@, ctx),
{
    match via {
        AccessVia::Group(g) => if ctx.is_managed_group(g) {
            Some(g.clone())
        } else {
            None
        },
        AccessVia::AclGroup(g) => if ctx.is_managed_group(g) {
            Some(g.clone())
        } else {
            None
        },
        _ => None,
    }
}

/// The concrete manual remediation command for an ambient finding.
fn ambient_hint(via: &AccessVia, path: &str, class: ObjectClass, access: AclPerms) -> (r: String)
    ensures
        r@ == manual_hint(via@, path@, class, access),
{
    match via {
        AccessVia::OtherBits => {
            if access.write {
                text::join3("remove world write manually: `chmod o-w ", path, "`")
            } else {
                match class {
                    ObjectClass::Secret => text::join3(
                        "remove world read of a secret manually: `chmod 640 ",
                        path,
                        "`",
                    ),
                    _ => text::join3("remove world read manually: `chmod o-rwx ", path, "`"),
                }
            }
        },
        AccessVia::AclUser(u) => {
            let mut r = text::join3("remove the ACL entry manually: `setfacl -x u:", u, " ");
            r.append(path);
            r.append("`");
            r
        },
        AccessVia::AclGroup(g) => {
            let mut r = text::join3("remove the ACL entry manually: `setfacl -x g:", g, " ");
            r.append(path);
            r.append("`");
            r
        },
        AccessVia::Group(_) => {
            if access.write {
                text::join3("remove group write manually: `chmod g-w ", path, "`")
            } else {
                text::join3("restrict group access manually on `", path, "`")
            }
        },
        AccessVia::Owner => {
            text::join3("review ownership of `", path, "` (the principal owns it)")
        },
    }
}

// ---------------------------------------------------------------------------
// Findings
// ---------------------------------------------------------------------------

/// One exposure finding: a reachable access classified, scored, and given a
/// remediation path.
#[derive(Debug, Clone, PartialEq, Eq)]
pub struct Finding {
    /// The principal the exposure is under, or `None` in the global posture map.
    pub principal: Option<String>,
    /// The exposed inode's absolute path.
    pub path: String,
    /// The effective bits on the inode.
    pub access: AclPerms,
    /// The precedence class that granted the access.
    pub via: AccessVia,
    /// The inode's object class.
    pub class: ObjectClass,
    /// The kind of harm enabled.
    pub risk: Risk,
    /// How urgent the finding is.
    pub severity: Severity,
    /// Whether the fix is ambient (manual) or in-model (narrow a declaration).
    pub remediation_class: RemediationClass,
    /// The concrete remediation hint.
    pub hint: String,
}

/// The contents of a [`Finding`].
#[verifier::ext_equal]
pub struct FindingView {
    /// The principal.
    pub principal: Option<Seq<char>>,
    /// The exposed inode's absolute path.
    pub path: Seq<char>,
    /// The effective bits on the inode.
    pub access: AclPerms,
    /// The precedence class that granted the access.
    pub why: access::ViaView,
    /// The inode's object class.
    pub class: ObjectClass,
    /// The kind of harm enabled.
    pub risk: Risk,
    /// How urgent the finding is.
    pub severity: Severity,
    /// Whether the fix is ambient or in-model.
    pub remediation_class: RemediationClass,
    /// The concrete remediation hint.
    pub hint: Seq<char>,
}

impl View for Finding {
    type V = FindingView;

    open spec fn view(&self) -> FindingView {
        FindingView {
            principal: inspect::opt_text(self.principal),
            path: self.path@,
            access: self.access,
            why: self.via@,
            class: self.class,
            risk: self.risk,
            severity: self.severity,
            remediation_class: self.remediation_class,
            hint: self.hint@,
        }
    }
}

/// The contents of a list of findings.
pub open spec fn finding_views(v: Seq<Finding>) -> Seq<FindingView> {
    v.map_values(|f: Finding| f@)
}

/// The contents of an optional finding.
pub open spec fn opt_finding(f: Option<Finding>) -> Option<FindingView> {
    match f {
        Some(f) => Some(f@),
        None => None,
    }
}

/// The finding that an access to an object makes, where it is a risk.
pub open spec fn table_finding<C: RemediationContext>(
    path: Seq<char>,
    class: ObjectClass,
    access: AclPerms,
    why: access::ViaView,
    principal: Option<Seq<char>>,
    ctx: &C,
) -> Option<FindingView> {
    match risk_of(access, class) {
        Some(risk) => {
            let r = remedy(why, path, class, access, ctx);
            Some(
                FindingView {
                    principal,
                    path,
                    access,
                    why,
                    class,
                    risk,
                    severity: severity_of(class, risk),
                    remediation_class: r.class,
                    hint: r.hint,
                },
            )
        },
        None => None,
    }
}

/// The finding that an access makes; none for an object that is out of reach.
pub open spec fn finding_of<C: RemediationContext>(
    rec: index::RecordView,
    access: AclPerms,
    why: access::ViaView,
    principal: Option<Seq<char>>,
    reachable: bool,
    ctx: &C,
) -> Option<FindingView> {
    if reachable {
        table_finding(rec.path, rec.class, access, why, principal, ctx)
    } else {
        None
    }
}

/// The finding that an access to an object makes, where it is a risk.
pub(crate) fn build_finding<C: RemediationContext>(
    path: &str,
    class: ObjectClass,
    access: AclPerms,
    via: &AccessVia,
    principal: Option<&str>,
    ctx: &C,
) -> (r: Option<Finding>)
    ensures
        opt_finding(r) == table_finding(
            path@,
            class,
            access,
            via@,
            inspect::opt_str(principal),
            ctx,
        ),
{
    match derive_risk(access, class) {
        None => None,
        Some(risk) => {
            let severity = derive_severity(class, risk);
            let (remediation_class, hint) = remediation(via, path, class, access, ctx);
            let principal = match principal {
                Some(p) => Some(p.to_owned()),
                None => None,
            };
            Some(
                Finding {
                    principal,
                    path: path.to_owned(),
                    access,
                    via: via.clone(),
                    class,
                    risk,
                    severity,
                    remediation_class,
                    hint,
                },
            )
        },
    }
}

/// Build a [`Finding`] for one reachable access, or `None` when it is not a finding:
/// the object is unreachable, or the access is not a reportable risk.
///
/// `principal` is the principal name for the per-principal mode, or `None` for the
/// global posture map. The class is the one the index computed.
pub fn finding_for<C: RemediationContext>(
    record: &InodeRecord,
    access: AclPerms,
    via: &AccessVia,
    principal: Option<&str>,
    reachable: bool,
    ctx: &C,
) -> (r: Option<Finding>)
    ensures
        opt_finding(r) == finding_of(
            record@,
            access,
            via@,
            inspect::opt_str(principal),
            reachable,
            ctx,
        ),
{
    if !reachable {
        return None;
    }
    build_finding(&record.path, record.class, access, via, principal, ctx)
}

// ---------------------------------------------------------------------------
// Laws
// ---------------------------------------------------------------------------

/// A finding takes write access, or read access to a secret: no other access is one, on
/// whatever class.
pub proof fn findings_take_write_or_a_secret(access: AclPerms, class: ObjectClass)
    ensures
        risk_of(access, class) is Some <==> access.write || (access.read && class is Secret),
{
}

/// Escalations and leaks are of high severity, and so is nothing else.
pub proof fn escalations_and_leaks_are_high(class: ObjectClass, risk: Risk)
    ensures
        severity_of(class, risk) is High <==> risk is Escalation || risk is Leak,
{
}

/// A setuid or setgid regular file is a setuid binary whatever its path. Nothing else
/// is one: no directory, no socket, no other special file, and no file without an id bit.
pub proof fn setid_precedes_every_glob(secrets: Seq<Seq<char>>, path: Seq<char>, mode: u32)
    ensures
        class_of(secrets, path, mode) is SetuidBinary <==> (mode & S_IFMT) == S_IFREG && (mode
            & SETID_BITS) != 0,
        (mode & S_IFMT) == S_IFDIR ==> !(class_of(secrets, path, mode) is SetuidBinary),
{
}

/// A remedy is in the model only where a managed group or a file grant is behind the
/// access; all else is to be mended by hand.
pub proof fn in_model_remedies_have_an_owner<C: RemediationContext>(
    why: access::ViaView,
    path: Seq<char>,
    class: ObjectClass,
    access: AclPerms,
    ctx: &C,
)
    ensures
        remedy(why, path, class, access, ctx).class is InModel <==> managed_group(
            why,
            ctx,
        ) is Some || grant_behind(why, path, ctx) is Some,
{
}

/// Without managed objects every remedy is ambient.
pub proof fn without_a_context_all_is_ambient(
    why: access::ViaView,
    path: Seq<char>,
    class: ObjectClass,
    access: AclPerms,
)
    ensures
        remedy(why, path, class, access, &NoManagedContext).class is Ambient,
{
}

/// The paths of the privilege policy.
pub proof fn sudoers_globs(path: Seq<char>)
    ensures
        matches_some(text::str_views(SUDOERS_GLOBS@), path) <==> {
            ||| glob::glob("/etc/sudoers"@, path)
            ||| glob::glob("/etc/sudoers.d/**"@, path)
        },
{
    let t = text::str_views(SUDOERS_GLOBS@);
    assert(t[0] == "/etc/sudoers"@);
    assert(t[1] == "/etc/sudoers.d/**"@);
    assert(t.len() == 2);
}

/// The paths of scheduled execution.
pub proof fn cron_globs(path: Seq<char>)
    ensures
        matches_some(text::str_views(CRON_GLOBS@), path) <==> {
            ||| glob::glob("/var/spool/cron/**"@, path)
            ||| glob::glob("/etc/cron*/**"@, path)
            ||| glob::glob("/etc/crontab"@, path)
        },
{
    let t = text::str_views(CRON_GLOBS@);
    assert(t[0] == "/var/spool/cron/**"@);
    assert(t[1] == "/etc/cron*/**"@);
    assert(t[2] == "/etc/crontab"@);
    assert(t.len() == 3);
}

/// The paths of service definitions.
pub proof fn unit_globs(path: Seq<char>)
    ensures
        matches_some(text::str_views(UNIT_GLOBS@), path) <==> {
            ||| glob::glob("/etc/systemd/**"@, path)
            ||| glob::glob("/lib/systemd/system/**"@, path)
        },
{
    let t = text::str_views(UNIT_GLOBS@);
    assert(t[0] == "/etc/systemd/**"@);
    assert(t[1] == "/lib/systemd/system/**"@);
    assert(t.len() == 2);
}

/// The paths of binaries on a system `PATH`.
pub proof fn path_binary_globs(path: Seq<char>)
    ensures
        matches_some(text::str_views(PATH_BINARY_GLOBS@), path) <==> {
            ||| glob::glob("/usr/bin/**"@, path)
            ||| glob::glob("/bin/**"@, path)
            ||| glob::glob("/usr/local/bin/**"@, path)
            ||| glob::glob("/sbin/**"@, path)
        },
{
    let t = text::str_views(PATH_BINARY_GLOBS@);
    assert(t[0] == "/usr/bin/**"@);
    assert(t[1] == "/bin/**"@);
    assert(t[2] == "/usr/local/bin/**"@);
    assert(t[3] == "/sbin/**"@);
    assert(t.len() == 4);
}

/// The paths of secrets, where no others are configured.
pub proof fn default_secret_globs(path: Seq<char>)
    ensures
        matches_some(text::str_views(DEFAULT_SECRET_GLOBS@), path) <==> {
            ||| glob::glob("/etc/shadow*"@, path)
            ||| glob::glob("**/*.key"@, path)
            ||| glob::glob("**/*.pem"@, path)
            ||| glob::glob("**/id_rsa*"@, path)
            ||| glob::glob("**/.env*"@, path)
            ||| glob::glob("**/*credentials*"@, path)
        },
{
    let t = text::str_views(DEFAULT_SECRET_GLOBS@);
    assert(t[0] == "/etc/shadow*"@);
    assert(t[1] == "**/*.key"@);
    assert(t[2] == "**/*.pem"@);
    assert(t[3] == "**/id_rsa*"@);
    assert(t[4] == "**/.env*"@);
    assert(t[5] == "**/*credentials*"@);
    assert(t.len() == 6);
}

/// The class of an object: an id bit on a regular file comes before every path. Then the
/// first of these that the path is one of decides: the privilege policy, scheduled
/// execution, service definitions, secrets, binaries on a `PATH`, security-relevant
/// configuration. All else is generic.
pub proof fn classes_by_precedence(secrets: Seq<Seq<char>>, path: Seq<char>, mode: u32)
    ensures
        ({
            let c = class_of(secrets, path, mode);
            let id = mode & 0o170000 == 0o100000 && mode & 0o6000 != 0;
            let sudoers = glob::glob("/etc/sudoers"@, path) || glob::glob(
                "/etc/sudoers.d/**"@,
                path,
            );
            let cron = glob::glob("/var/spool/cron/**"@, path) || glob::glob(
                "/etc/cron*/**"@,
                path,
            ) || glob::glob("/etc/crontab"@, path);
            let unit = glob::glob("/etc/systemd/**"@, path) || glob::glob(
                "/lib/systemd/system/**"@,
                path,
            );
            let secret = exists|i: int|
                0 <= i < secrets.len() && glob::glob(#[trigger] secrets[i], path);
            let binary = glob::glob("/usr/bin/**"@, path) || glob::glob("/bin/**"@, path)
                || glob::glob("/usr/local/bin/**"@, path) || glob::glob("/sbin/**"@, path);
            let config = policy::security_relevant(path);
            &&& c is SetuidBinary <==> id
            &&& c is Sudoers <==> !id && sudoers
            &&& c is Cron <==> !id && !sudoers && cron
            &&& c is SystemdUnit <==> !id && !sudoers && !cron && unit
            &&& c is Secret <==> !id && !sudoers && !cron && !unit && secret
            &&& c is PathBinary <==> !id && !sudoers && !cron && !unit && !secret && binary
            &&& c is Config <==> !id && !sudoers && !cron && !unit && !secret && !binary && config
        }),
{
    sudoers_globs(path);
    cron_globs(path);
    unit_globs(path);
    path_binary_globs(path);
}

/// The harm of an access: writing configuration or a generic object tampers, writing
/// anything else escalates, and reading a secret without writing it leaks.
pub proof fn risks_by_access_and_class(access: AclPerms, class: ObjectClass)
    ensures
        risk_of(access, class) == Some(Risk::Escalation) <==> access.write && (class is Cron
            || class is SystemdUnit || class is PathBinary || class is Sudoers || class is Secret
            || class is SetuidBinary),
        risk_of(access, class) == Some(Risk::Tamper) <==> access.write && (class is Config
            || class is Generic),
        risk_of(access, class) == Some(Risk::Leak) <==> !access.write && access.read
            && class is Secret,
{
}

/// The severity of tampering: medium on configuration, low on all else. Severities rank high
/// over medium over low.
pub proof fn tampering_is_medium_on_configuration(class: ObjectClass)
    ensures
        class is Config ==> severity_of(class, Risk::Tamper) is Medium,
        !(class is Config) ==> severity_of(class, Risk::Tamper) is Low,
        Severity::High.weight() == 3,
        Severity::Medium.weight() == 2,
        Severity::Low.weight() == 1,
{
}

/// The tokens that are written and read.
pub proof fn tokens_of_findings()
    ensures
        Risk::Escalation.text() == "escalation"@,
        Risk::Leak.text() == "leak"@,
        Risk::Tamper.text() == "tamper"@,
        Severity::High.text() == "high"@,
        Severity::Medium.text() == "medium"@,
        Severity::Low.text() == "low"@,
        RemediationClass::Ambient.text() == "ambient"@,
        RemediationClass::InModel.text() == "in-model"@,
        ObjectClass::Cron.text() == "cron"@,
        ObjectClass::SystemdUnit.text() == "systemd-unit"@,
        ObjectClass::PathBinary.text() == "path-binary"@,
        ObjectClass::Sudoers.text() == "sudoers"@,
        ObjectClass::Config.text() == "config"@,
        ObjectClass::Secret.text() == "secret"@,
        ObjectClass::SetuidBinary.text() == "setuid-binary"@,
        ObjectClass::Generic.text() == "generic"@,
{
}

/// The remedy of an access. Where it comes through a group that is managed, by mode or by
/// ACL, that group's declaration is to be narrowed. Else, where it comes through an ACL
/// entry and a grant covers the path, that grant is. All else is mended by hand.
pub proof fn remedies_by_origin<C: RemediationContext>(
    group: Seq<char>,
    user: Seq<char>,
    path: Seq<char>,
    class: ObjectClass,
    access: AclPerms,
    ctx: &C,
)
    ensures
        ({
            let by_group = remedy(access::ViaView::Group(group), path, class, access, ctx);
            let by_entry = remedy(access::ViaView::AclGroup(group), path, class, access, ctx);
            let by_user = remedy(access::ViaView::AclUser(user), path, class, access, ctx);
            let narrow_group = "narrow the Census declaration of group `"@ + group
                + "`: its membership grants access to `"@ + path
                + "` beyond what the role needs"@;
            let narrow_grant = |grant: Seq<char>|
                "narrow the Census file-access grant `"@ + grant + "`: it covers `"@ + path
                    + "`, which is wider than the role needs"@;
            &&& ctx.manages(group) ==> by_group.class is InModel && by_entry.class is InModel
                && by_group.hint == narrow_group && by_entry.hint == narrow_group
            &&& !ctx.manages(group) ==> by_group.class is Ambient
            &&& !ctx.manages(group) && ctx.grant_over(path) is Some ==> by_entry.class is InModel
                && by_entry.hint == narrow_grant(ctx.grant_over(path)->0)
            &&& !ctx.manages(group) && ctx.grant_over(path) is None ==> by_entry.class is Ambient
                && by_entry.hint == "remove the ACL entry manually: `setfacl -x g:"@ + group + " "@
                + path + "`"@
            &&& ctx.grant_over(path) is Some ==> by_user.class is InModel && by_user.hint
                == narrow_grant(ctx.grant_over(path)->0)
            &&& ctx.grant_over(path) is None ==> by_user.class is Ambient && by_user.hint
                == "remove the ACL entry manually: `setfacl -x u:"@ + user + " "@ + path + "`"@
            &&& !ctx.manages(group) && access.write ==> by_group.hint
                == "remove group write manually: `chmod g-w "@ + path + "`"@
            &&& !ctx.manages(group) && !access.write ==> by_group.hint
                == "restrict group access manually on `"@ + path + "`"@
        }),
{
}

/// An access by the other bits or by ownership is mended by hand, whatever is managed: world
/// write before world read, and a secret is kept readable by its group.
pub proof fn world_access_is_mended_by_hand<C: RemediationContext>(
    path: Seq<char>,
    class: ObjectClass,
    access: AclPerms,
    ctx: &C,
)
    ensures
        remedy(access::ViaView::OtherBits, path, class, access, ctx) == (RemedyView {
            class: RemediationClass::Ambient,
            hint: if access.write {
                "remove world write manually: `chmod o-w "@ + path + "`"@
            } else if class is Secret {
                "remove world read of a secret manually: `chmod 640 "@ + path + "`"@
            } else {
                "remove world read manually: `chmod o-rwx "@ + path + "`"@
            },
        }),
        remedy(access::ViaView::Owner, path, class, access, ctx) == (RemedyView {
            class: RemediationClass::Ambient,
            hint: "review ownership of `"@ + path + "` (the principal owns it)"@,
        }),
{
}

/// A finding is made of every reachable access that is a risk, and of no other. It says
/// what it was given, and the risk, severity and remedy of that.
pub proof fn findings_say_what_they_are_of<C: RemediationContext>(
    rec: index::RecordView,
    access: AclPerms,
    why: access::ViaView,
    principal: Option<Seq<char>>,
    reachable: bool,
    ctx: &C,
)
    ensures
        finding_of(rec, access, why, principal, reachable, ctx) is Some <==> reachable && (
        access.write || (access.read && rec.class is Secret)),
        finding_of(rec, access, why, principal, reachable, ctx) matches Some(f) ==> {
            &&& f.principal == principal
            &&& f.path == rec.path
            &&& f.access == access
            &&& f.why == why
            &&& f.class == rec.class
            &&& Some(f.risk) == risk_of(access, rec.class)
            &&& f.severity == severity_of(rec.class, f.risk)
            &&& f.remediation_class == remedy(why, rec.path, rec.class, access, ctx).class
            &&& f.hint == remedy(why, rec.path, rec.class, access, ctx).hint
        },
        finding_of(rec, access, why, principal, true, ctx) == table_finding(
            rec.path,
            rec.class,
            access,
            why,
            principal,
            ctx,
        ),
{
}

} // verus!
