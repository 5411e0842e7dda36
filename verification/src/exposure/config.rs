//! The `exposure.toml` configuration: scan scope and classifier overrides.
//!
//! The exposure audit has built-in defaults (the security-relevant scan roots, the
//! secret-classifying globs, the wide-group list). A site can override any of them in
//! `exposure.toml`; an absent file is not an error, the defaults apply. Reading the file
//! is left to the caller, which hands its outcome to [`ExposureConfig::load`].

use vstd::prelude::*;

use crate::catalog;
use crate::exposure::fs_audit::DEFAULT_BROAD_GROUPS;
use crate::exposure::glob;
use crate::exposure::scope;
use crate::exposure::scope::DEFAULT_SCAN_ROOTS;
use crate::exposure::taxonomy::{Classifier, DEFAULT_SECRET_GLOBS};
use crate::text;

verus! {

broadcast use vstd::string::group_string_axioms;

/// Scan scope and classifier overrides.
#[derive(Debug, PartialEq, Eq)]
pub struct ExposureConfig {
    /// The roots scanned when no explicit scope is given.
    pub scan_roots: Vec<String>,
    /// The globs that classify an inode as a secret.
    pub secret_globs: Vec<String>,
    /// The wide group names whose group-write access is a posture concern.
    pub broad_groups: Vec<String>,
}

/// The model of a configuration.
#[verifier::ext_equal]
pub struct ConfigView {
    /// The scan roots.
    pub scan_roots: Seq<Seq<char>>,
    /// The secret-classifying globs.
    pub secret_globs: Seq<Seq<char>>,
    /// The wide group names.
    pub broad_groups: Seq<Seq<char>>,
}

impl View for ExposureConfig {
    type V = ConfigView;

    open spec fn view(&self) -> ConfigView {
        ConfigView {
            scan_roots: text::views(self.scan_roots@),
            secret_globs: text::views(self.secret_globs@),
            broad_groups: text::views(self.broad_groups@),
        }
    }
}

/// The configuration that applies where nothing is overridden.
pub open spec fn built_in() -> ConfigView {
    ConfigView {
        scan_roots: text::str_views(DEFAULT_SCAN_ROOTS@),
        secret_globs: text::str_views(DEFAULT_SECRET_GLOBS@),
        broad_groups: text::str_views(DEFAULT_BROAD_GROUPS@),
    }
}

impl Default for ExposureConfig {
    fn default() -> (r: Self)
        ensures
            r@ == built_in(),
    {
        ExposureConfig {
            scan_roots: scope::default_roots(),
            secret_globs: default_secret_globs(),
            broad_groups: default_broad_groups(),
        }
    }
}

impl Clone for ExposureConfig {
    fn clone(&self) -> (r: Self)
        ensures
            r@ == self@,
    {
        ExposureConfig {
            scan_roots: text::copy_strings(self.scan_roots.as_slice()),
            secret_globs: text::copy_strings(self.secret_globs.as_slice()),
            broad_groups: text::copy_strings(self.broad_groups.as_slice()),
        }
    }
}

/// The default secret-classifying globs.
pub fn default_secret_globs() -> (r: Vec<String>)
    ensures
        text::views(r@) == text::str_views(DEFAULT_SECRET_GLOBS@),
{
    text::owned_words(&DEFAULT_SECRET_GLOBS)
}

/// The default wide-group names.
pub fn default_broad_groups() -> (r: Vec<String>)
    ensures
        text::views(r@) == text::str_views(DEFAULT_BROAD_GROUPS@),
{
    text::owned_words(&DEFAULT_BROAD_GROUPS)
}

/// Errors reading the configuration.
#[derive(Debug, PartialEq, Eq)]
#[non_exhaustive]
pub enum ExposureConfigError {
    /// The file exists but cannot be read.
    Io {
        /// The path consulted.
        path: String,
        /// The underlying I/O error.
        source: String,
    },
    /// The file is malformed or carries an unknown key.
    Toml {
        /// The path consulted.
        path: String,
        /// The underlying parse error.
        source: String,
    },
    /// The file parsed but is semantically invalid (empty or relative `scan_roots`, or a
    /// secret glob with more than one `**`).
    Invalid {
        /// The path consulted.
        path: String,
        /// What is wrong with the configuration.
        reason: String,
    },
}

/// The model of a configuration error.
pub enum ConfigErrorView {
    /// See [`ExposureConfigError::Io`].
    Io { path: Seq<char>, source: Seq<char> },
    /// See [`ExposureConfigError::Toml`].
    Toml { path: Seq<char>, source: Seq<char> },
    /// See [`ExposureConfigError::Invalid`].
    Invalid { path: Seq<char>, reason: Seq<char> },
}

impl View for ExposureConfigError {
    type V = ConfigErrorView;

    open spec fn view(&self) -> ConfigErrorView {
        match self {
            ExposureConfigError::Io { path, source } => ConfigErrorView::Io {
                path: path@,
                source: source@,
            },
            ExposureConfigError::Toml { path, source } => ConfigErrorView::Toml {
                path: path@,
                source: source@,
            },
            ExposureConfigError::Invalid { path, reason } => ConfigErrorView::Invalid {
                path: path@,
                reason: reason@,
            },
        }
    }
}

impl ConfigErrorView {
    /// The message of the error.
    pub open spec fn text(self) -> Seq<char> {
        match self {
            ConfigErrorView::Io { path, source } => "cannot read exposure config "@ + path + ": "@
                + source,
            ConfigErrorView::Toml { path, source } => "exposure config "@ + path
                + " is invalid: "@ + source,
            ConfigErrorView::Invalid { path, reason } => "exposure config "@ + path
                + " is invalid: "@ + reason,
        }
    }
}

impl ExposureConfigError {
    /// The message of the error.
    pub fn message(&self) -> (r: String)
        ensures
            r@ == self@.text(),
    {
        match self {
            ExposureConfigError::Io { path, source } => {
                let mut r = text::join3("cannot read exposure config ", path, ": ");
                r.append(source);
                r
            },
            ExposureConfigError::Toml { path, source } => {
                let mut r = text::join3("exposure config ", path, " is invalid: ");
                r.append(source);
                r
            },
            ExposureConfigError::Invalid { path, reason } => {
                let mut r = text::join3("exposure config ", path, " is invalid: ");
                r.append(reason);
                r
            },
        }
    }
}

// ---------------------------------------------------------------------------
// Validation
// ---------------------------------------------------------------------------

/// The first path of the list that is not absolute.
pub open spec fn first_relative(roots: Seq<Seq<char>>) -> Option<Seq<char>>
    decreases roots.len(),
{
    if roots.len() == 0 {
        None
    } else if !catalog::is_absolute(roots[0]) {
        Some(roots[0])
    } else {
        first_relative(roots.skip(1))
    }
}

/// The first glob of the list with more than one `**`.
pub open spec fn first_deep(globs: Seq<Seq<char>>) -> Option<Seq<char>>
    decreases globs.len(),
{
    if globs.len() == 0 {
        None
    } else if glob::double_stars(globs[0]) > 1 {
        Some(globs[0])
    } else {
        first_deep(globs.skip(1))
    }
}

/// What is wrong with a configuration, if anything. A list without scan roots comes
/// first, then the first relative scan root, then the first glob with two `**`.
pub open spec fn fault(c: ConfigView) -> Option<Seq<char>> {
    if c.scan_roots.len() == 0 {
        Some("scan_roots is empty: the audit would scan nothing and report all-clear"@)
    } else {
        match first_relative(c.scan_roots) {
            Some(root) => Some(
                "scan_root "@ + root
                    + " is not absolute: the walk would run relative to the working directory and the absolute classifier globs would never match, silently dropping high-severity findings"@,
            ),
            None => match first_deep(c.secret_globs) {
                Some(g) => Some(
                    "secret_glob "@ + text::debug_text(g)
                        + " contains more than one `**`: the matcher backtracks across `**`, so this risks exponential blowup on a full scan"@,
                ),
                None => None,
            },
        }
    }
}

/// The outcome of reading and parsing the configuration file.
#[derive(Debug)]
pub enum ConfigRead {
    /// There is no such file.
    Missing,
    /// The file exists and cannot be read, with the error.
    Unreadable(String),
    /// The file is not a configuration, with the error.
    Malformed(String),
    /// The file parsed, with the default in each place it leaves out.
    Parsed(ExposureConfig),
}

/// What loading the configuration from `path` gives for each outcome of reading it.
pub open spec fn loaded(path: Seq<char>, read: ConfigRead) -> Result<ConfigView, ConfigErrorView> {
    match read {
        ConfigRead::Missing => Ok(built_in()),
        ConfigRead::Unreadable(source) => Err(ConfigErrorView::Io { path, source: source@ }),
        ConfigRead::Malformed(source) => Err(ConfigErrorView::Toml { path, source: source@ }),
        ConfigRead::Parsed(c) => match fault(c@) {
            Some(reason) => Err(ConfigErrorView::Invalid { path, reason }),
            None => Ok(c@),
        },
    }
}

impl ExposureConfig {
    /// Load the configuration from the outcome of reading `path`.
    ///
    /// Only a file that is genuinely absent yields the defaults. Any other read failure
    /// is [`ExposureConfigError::Io`], a malformed file [`ExposureConfigError::Toml`],
    /// and a parsed but invalid one [`ExposureConfigError::Invalid`].
    pub fn load(path: &str, read: ConfigRead) -> (r: Result<Self, ExposureConfigError>)
        ensures
            match r {
                Ok(c) => loaded(path@, read) == Ok::<ConfigView, ConfigErrorView>(c@),
                Err(e) => loaded(path@, read) == Err::<ConfigView, ConfigErrorView>(e@),
            },
    {
        match read {
            ConfigRead::Missing => Ok(ExposureConfig::default()),
            ConfigRead::Unreadable(source) => Err(
                ExposureConfigError::Io { path: path.to_owned(), source },
            ),
            ConfigRead::Malformed(source) => Err(
                ExposureConfigError::Toml { path: path.to_owned(), source },
            ),
            ConfigRead::Parsed(config) => match config.validate(path) {
                Ok(()) => Ok(config),
                Err(e) => Err(e),
            },
        }
    }

    /// Validate the parsed configuration: `scan_roots` non-empty and absolute, and every
    /// secret glob with at most one `**`.
    pub fn validate(&self, path: &str) -> (r: Result<(), ExposureConfigError>)
        ensures
            match fault(self@) {
                Some(reason) => r is Err && r->Err_0@ == (ConfigErrorView::Invalid {
                    path: path@,
                    reason,
                }),
                None => r is Ok,
            },
    {
        let ghost roots = text::views(self.scan_roots@);
        let ghost globs = text::views(self.secret_globs@);
        if self.scan_roots.len() == 0 {
            return Err(
                ExposureConfigError::Invalid {
                    path: path.to_owned(),
                    reason:
                        "scan_roots is empty: the audit would scan nothing and report all-clear".to_owned(),
                },
            );
        }
        let mut i: usize = 0;
        proof {
            assert(roots.skip(0) =~= roots);
        }
        while i < self.scan_roots.len()
            invariant
                roots == text::views(self.scan_roots@),
                roots == self@.scan_roots,
                roots.len() > 0,
                i <= roots.len(),
                first_relative(roots) == first_relative(roots.skip(i as int)),
            decreases roots.len() - i,
        {
            let root = &self.scan_roots[i];
            proof {
                assert(roots.skip(i as int)[0] == root@);
                assert(roots.skip(i as int).skip(1) =~= roots.skip(i + 1));
            }
            if !catalog::path_is_absolute(root) {
                let reason = text::join3(
                    "scan_root ",
                    root,
                    " is not absolute: the walk would run relative to the working directory and the absolute classifier globs would never match, silently dropping high-severity findings",
                );
                return Err(ExposureConfigError::Invalid { path: path.to_owned(), reason });
            }
            i += 1;
        }
        let mut k: usize = 0;
        proof {
            assert(globs.skip(0) =~= globs);
        }
        while k < self.secret_globs.len()
            invariant
                globs == text::views(self.secret_globs@),
                globs == self@.secret_globs,
                self@.scan_roots.len() > 0,
                first_relative(self@.scan_roots) is None,
                k <= globs.len(),
                first_deep(globs) == first_deep(globs.skip(k as int)),
            decreases globs.len() - k,
        {
            let g = &self.secret_globs[k];
            proof {
                assert(globs.skip(k as int)[0] == g@);
                assert(globs.skip(k as int).skip(1) =~= globs.skip(k + 1));
            }
            if glob::double_star_count(g) > 1 {
                let shown = text::debug_string(g);
                let reason = text::join3(
                    "secret_glob ",
                    &shown,
                    " contains more than one `**`: the matcher backtracks across `**`, so this risks exponential blowup on a full scan",
                );
                return Err(ExposureConfigError::Invalid { path: path.to_owned(), reason });
            }
            k += 1;
        }
        Ok(())
    }

    /// The object [`Classifier`] built from the configured secret globs.
    pub fn classifier(&self) -> (r: Classifier)
        ensures
            r@ == self@.secret_globs,
    {
        Classifier::new(text::copy_strings(self.secret_globs.as_slice()))
    }
}

// ---------------------------------------------------------------------------
// Laws
// ---------------------------------------------------------------------------

/// The built-in globs keep to one `**` each.
proof fn lemma_built_in_globs()
    ensures
        forall|i: int|
            0 <= i < built_in().secret_globs.len() ==> glob::double_stars(
                #[trigger] built_in().secret_globs[i],
            ) <= 1,
{
    reveal_strlit("/etc/shadow*");
    reveal_strlit("**/*.key");
    reveal_strlit("**/*.pem");
    reveal_strlit("**/id_rsa*");
    reveal_strlit("**/.env*");
    reveal_strlit("**/*credentials*");
    assert forall|i: int| 0 <= i < built_in().secret_globs.len() implies glob::double_stars(
        #[trigger] built_in().secret_globs[i],
    ) <= 1 by {
        let g = built_in().secret_globs[i];
        assert(g == DEFAULT_SECRET_GLOBS@[i]@);
        assert forall|k: int| k != 0 implies !#[trigger] glob::star_pair(g, k) by {
            assert(k < 0 || k == 1 || k == 2 || k == 3 || k == 4 || k == 5 || k == 6 || k == 7 || k
                == 8 || k == 9 || k == 10 || k == 11 || k == 12 || k == 13 || k == 14 || k >= 15);
        }
        glob::double_stars_need_star_pairs(g, 0);
    }
}

/// No root of the list is relative.
proof fn lemma_no_relative(roots: Seq<Seq<char>>)
    requires
        forall|i: int| 0 <= i < roots.len() ==> catalog::is_absolute(#[trigger] roots[i]),
    ensures
        first_relative(roots) is None,
    decreases roots.len(),
{
    if roots.len() > 0 {
        let rest = roots.skip(1);
        assert forall|i: int| 0 <= i < rest.len() implies catalog::is_absolute(
            #[trigger] rest[i],
        ) by {
            assert(rest[i] == roots[i + 1]);
        }
        lemma_no_relative(rest);
    }
}

/// No glob of the list has more than one `**`.
proof fn lemma_no_deep(globs: Seq<Seq<char>>)
    requires
        forall|i: int| 0 <= i < globs.len() ==> glob::double_stars(#[trigger] globs[i]) <= 1,
    ensures
        first_deep(globs) is None,
    decreases globs.len(),
{
    if globs.len() > 0 {
        let rest = globs.skip(1);
        assert forall|i: int| 0 <= i < rest.len() implies glob::double_stars(#[trigger] rest[i])
            <= 1 by {
            assert(rest[i] == globs[i + 1]);
        }
        lemma_no_deep(rest);
    }
}

/// The built-in configuration is valid.
pub proof fn the_built_in_config_is_valid()
    ensures
        fault(built_in()) is None,
{
    reveal_strlit("/etc");
    reveal_strlit("/var");
    reveal_strlit("/opt");
    reveal_strlit("/usr/local");
    reveal_strlit("/srv");
    reveal_strlit("/home");
    reveal_strlit("/root");
    assert forall|i: int| 0 <= i < built_in().scan_roots.len() implies catalog::is_absolute(
        #[trigger] built_in().scan_roots[i],
    ) by {
        assert(built_in().scan_roots[i] == DEFAULT_SCAN_ROOTS@[i]@);
    }
    lemma_no_relative(built_in().scan_roots);
    lemma_built_in_globs();
    lemma_no_deep(built_in().secret_globs);
}

/// A configuration that loads is valid: it scans something, from absolute roots, and no
/// glob of it can blow up.
pub proof fn loaded_configs_are_valid(path: Seq<char>, read: ConfigRead)
    ensures
        loaded(path, read) matches Ok(c) ==> fault(c) is None,
{
    the_built_in_config_is_valid();
}

/// The root that is told is the first that does not begin with a slash.
pub proof fn the_first_relative_root(roots: Seq<Seq<char>>)
    ensures
        match first_relative(roots) {
            None => forall|i: int|
                0 <= i < roots.len() ==> (#[trigger] roots[i]).len() > 0 && roots[i][0] == '/',
            Some(found) => exists|i: int|
                {
                    &&& 0 <= i < roots.len()
                    &&& !((#[trigger] roots[i]).len() > 0 && roots[i][0] == '/')
                    &&& found == roots[i]
                    &&& forall|j: int|
                        0 <= j < i ==> (#[trigger] roots[j]).len() > 0 && roots[j][0] == '/'
                },
        },
    decreases roots.len(),
{
    if roots.len() > 0 && roots[0].len() > 0 && roots[0][0] == '/' {
        let rest = roots.skip(1);
        the_first_relative_root(rest);
        match first_relative(rest) {
            None => {
                assert forall|i: int|
                    0 <= i < roots.len() implies (#[trigger] roots[i]).len() > 0 && roots[i][0]
                        == '/' by {
                    if i > 0 {
                        assert(rest[i - 1] == roots[i]);
                    }
                }
            },
            Some(found) => {
                let i = choose|i: int|
                    {
                        &&& 0 <= i < rest.len()
                        &&& !((#[trigger] rest[i]).len() > 0 && rest[i][0] == '/')
                        &&& found == rest[i]
                        &&& forall|j: int|
                            0 <= j < i ==> (#[trigger] rest[j]).len() > 0 && rest[j][0] == '/'
                    };
                assert(roots[i + 1] == rest[i]);
                assert forall|j: int|
                    0 <= j < i + 1 implies (#[trigger] roots[j]).len() > 0 && roots[j][0]
                        == '/' by {
                    if j > 0 {
                        assert(rest[j - 1] == roots[j]);
                    }
                }
            },
        }
    } else if roots.len() > 0 {
        assert(!(roots[0].len() > 0 && roots[0][0] == '/'));
    }
}

/// The glob that is told is the first with more than one `**`.
pub proof fn the_first_deep_glob(globs: Seq<Seq<char>>)
    ensures
        match first_deep(globs) {
            None => forall|i: int|
                0 <= i < globs.len() ==> !(glob::double_stars(#[trigger] globs[i]) > 1),
            Some(found) => exists|i: int|
                {
                    &&& 0 <= i < globs.len()
                    &&& glob::double_stars(#[trigger] globs[i]) > 1
                    &&& found == globs[i]
                    &&& forall|j: int| 0 <= j < i ==> !(glob::double_stars(#[trigger] globs[j]) > 1)
                },
        },
    decreases globs.len(),
{
    if globs.len() > 0 && !(glob::double_stars(globs[0]) > 1) {
        let rest = globs.skip(1);
        the_first_deep_glob(rest);
        match first_deep(rest) {
            None => {
                assert forall|i: int|
                    0 <= i < globs.len() implies !(glob::double_stars(#[trigger] globs[i]) > 1) by {
                    if i > 0 {
                        assert(rest[i - 1] == globs[i]);
                    }
                }
            },
            Some(found) => {
                let i = choose|i: int|
                    {
                        &&& 0 <= i < rest.len()
                        &&& glob::double_stars(#[trigger] rest[i]) > 1
                        &&& found == rest[i]
                        &&& forall|j: int|
                            0 <= j < i ==> !(glob::double_stars(#[trigger] rest[j]) > 1)
                    };
                assert(globs[i + 1] == rest[i]);
                assert forall|j: int|
                    0 <= j < i + 1 implies !(glob::double_stars(#[trigger] globs[j]) > 1) by {
                    if j > 0 {
                        assert(rest[j - 1] == globs[j]);
                    }
                }
            },
        }
    } else if globs.len() > 0 {
        assert(glob::double_stars(globs[0]) > 1);
    }
}

/// What is wrong with a configuration: it has no roots; else its first relative root; else
/// its first glob with more than one `**`. With roots, all absolute, and no such glob there
/// is nothing wrong with it.
pub proof fn faults_of_a_config(c: ConfigView)
    ensures
        c.scan_roots.len() == 0 ==> fault(c) == Some(
            "scan_roots is empty: the audit would scan nothing and report all-clear"@,
        ),
        c.scan_roots.len() > 0 && first_relative(c.scan_roots) is Some ==> fault(c) == Some(
            "scan_root "@ + first_relative(c.scan_roots)->0
                + " is not absolute: the walk would run relative to the working directory and the absolute classifier globs would never match, silently dropping high-severity findings"@,
        ),
        c.scan_roots.len() > 0 && first_relative(c.scan_roots) is None && first_deep(
            c.secret_globs,
        ) is Some ==> fault(c) == Some(
            "secret_glob "@ + text::debug_text(first_deep(c.secret_globs)->0)
                + " contains more than one `**`: the matcher backtracks across `**`, so this risks exponential blowup on a full scan"@,
        ),
        fault(c) is None <==> {
            &&& c.scan_roots.len() > 0
            &&& forall|i: int|
                0 <= i < c.scan_roots.len() ==> (#[trigger] c.scan_roots[i]).len() > 0
                    && c.scan_roots[i][0] == '/'
            &&& forall|i: int|
                0 <= i < c.secret_globs.len() ==> glob::double_stars(#[trigger] c.secret_globs[i])
                    <= 1
        },
{
    the_first_relative_root(c.scan_roots);
    the_first_deep_glob(c.secret_globs);
}

/// What is loaded: the built-in configuration where the file is missing, the error of
/// reading or parsing where there is one, and else what the file says, where nothing is
/// wrong with it.
pub proof fn configs_are_loaded(path: Seq<char>, why: String, c: ExposureConfig)
    ensures
        loaded(path, ConfigRead::Missing) == Ok::<ConfigView, ConfigErrorView>(built_in()),
        loaded(path, ConfigRead::Unreadable(why)) == Err::<ConfigView, ConfigErrorView>(
            ConfigErrorView::Io { path, source: why@ },
        ),
        loaded(path, ConfigRead::Malformed(why)) == Err::<ConfigView, ConfigErrorView>(
            ConfigErrorView::Toml { path, source: why@ },
        ),
        fault(c@) is None ==> loaded(path, ConfigRead::Parsed(c)) == Ok::<
            ConfigView,
            ConfigErrorView,
        >(c@),
        fault(c@) matches Some(reason) ==> loaded(path, ConfigRead::Parsed(c)) == Err::<
            ConfigView,
            ConfigErrorView,
        >(ConfigErrorView::Invalid { path, reason }),
        built_in().scan_roots == text::str_views(DEFAULT_SCAN_ROOTS@),
        built_in().secret_globs == text::str_views(DEFAULT_SECRET_GLOBS@),
        built_in().broad_groups == text::str_views(DEFAULT_BROAD_GROUPS@),
{
}

/// The messages of the errors: each names the file and says what is wrong.
pub proof fn messages_of_config_errors(path: Seq<char>, why: Seq<char>)
    ensures
        (ConfigErrorView::Io { path, source: why }).text() == "cannot read exposure config "@ + path
            + ": "@ + why,
        (ConfigErrorView::Toml { path, source: why }).text() == "exposure config "@ + path
            + " is invalid: "@ + why,
        (ConfigErrorView::Invalid { path, reason: why }).text() == "exposure config "@ + path
            + " is invalid: "@ + why,
{
}

} // verus!
