use census::exposure::config::{
    default_broad_groups, default_secret_globs, ConfigRead, ExposureConfig, ExposureConfigError,
};
use census::exposure::scope::default_roots;
use census::exposure::ObjectClass;

const PATH: &str = "/etc/census/exposure.toml";

fn strings(items: &[&str]) -> Vec<String> {
    items.iter().map(|s| s.to_string()).collect()
}

fn load(config: ExposureConfig) -> Result<ExposureConfig, ExposureConfigError> {
    ExposureConfig::load(PATH, ConfigRead::Parsed(config))
}

#[test]
fn absent_file_yields_defaults() {
    let cfg = ExposureConfig::load(PATH, ConfigRead::Missing).expect("absent → defaults");
    assert_eq!(cfg.scan_roots, default_roots());
    assert_eq!(cfg.broad_groups, default_broad_groups());
    assert_eq!(cfg.secret_globs, default_secret_globs());
}

#[test]
fn partial_config_fills_defaults() {
    // Only broad_groups overridden; the rest fall back to defaults.
    let cfg = load(ExposureConfig {
        broad_groups: strings(&["wheel", "app-admins"]),
        ..ExposureConfig::default()
    })
    .expect("loads");
    assert_eq!(cfg.broad_groups, vec!["wheel", "app-admins"]);
    assert_eq!(cfg.scan_roots, default_roots(), "scan_roots defaulted");
    assert_eq!(
        cfg.secret_globs,
        default_secret_globs(),
        "secret_globs defaulted"
    );
}

#[test]
fn full_config_round_trips() {
    let cfg = load(ExposureConfig {
        scan_roots: strings(&["/etc", "/opt"]),
        secret_globs: strings(&["**/*.token"]),
        broad_groups: strings(&["staff"]),
    })
    .expect("loads");
    assert_eq!(cfg.scan_roots, vec!["/etc", "/opt"]);
    assert_eq!(cfg.secret_globs, vec!["**/*.token"]);
    assert_eq!(cfg.broad_groups, vec!["staff"]);
    // The classifier reflects the configured secret globs.
    assert_eq!(
        cfg.classifier().classify("/srv/app/api.token", 0o100_644),
        ObjectClass::Secret
    );
}

#[test]
fn unknown_key_is_rejected() {
    let read = ConfigRead::Malformed("unknown field `bogus`".to_owned());
    match ExposureConfig::load(PATH, read) {
        Err(e) => {
            assert!(matches!(e, ExposureConfigError::Toml { .. }));
            assert_eq!(
                e.message(),
                "exposure config /etc/census/exposure.toml is invalid: unknown field `bogus`"
            );
        }
        Ok(_) => panic!("an unknown key must be rejected (strict parse)"),
    }
}

#[test]
fn empty_scan_roots_is_rejected() {
    // An explicit empty list would scan nothing and report all-clear. It must be an error.
    assert!(matches!(
        load(ExposureConfig {
            scan_roots: Vec::new(),
            ..ExposureConfig::default()
        }),
        Err(ExposureConfigError::Invalid { .. })
    ));
}

#[test]
fn relative_scan_root_is_rejected() {
    // A relative root would walk relative to cwd and never match the absolute
    // classifier globs, silently dropping high-severity findings.
    let result = load(ExposureConfig {
        scan_roots: strings(&["etc", "/var"]),
        ..ExposureConfig::default()
    });
    assert!(matches!(result, Err(ExposureConfigError::Invalid { ref reason, .. })
        if reason.starts_with("scan_root etc is not absolute: ")));
}

#[test]
fn secret_glob_with_two_double_stars_is_rejected() {
    // The matcher backtracks across `**`; two `**` in one pattern risks exponential
    // blowup, so the config (operator-controlled though it is) is held to one.
    let result = load(ExposureConfig {
        secret_globs: strings(&["**/x/**/*.key"]),
        ..ExposureConfig::default()
    });
    assert!(matches!(result, Err(ExposureConfigError::Invalid { ref reason, .. })
        if reason.starts_with("secret_glob \"**/x/**/*.key\" contains more than one `**`")));
    // One `**` is fine.
    assert!(load(ExposureConfig {
        secret_globs: strings(&["**/*.key"]),
        ..ExposureConfig::default()
    })
    .is_ok());
}

#[test]
fn non_notfound_io_error_is_not_silently_defaulted() {
    // A read that fails otherwise than by absence must surface as an error, not fall
    // back silently to the defaults.
    let read = ConfigRead::Unreadable("Is a directory".to_owned());
    match ExposureConfig::load("/tmp", read) {
        Err(e) => {
            assert!(matches!(e, ExposureConfigError::Io { .. }));
            assert_eq!(e.message(), "cannot read exposure config /tmp: Is a directory");
        }
        Ok(_) => panic!("a read failure must be an honest error, not a silent default"),
    }
}

#[test]
fn the_built_in_config_validates() {
    assert!(ExposureConfig::default().validate(PATH).is_ok());
}

#[test]
fn messages_quote_the_glob_as_debug_does() {
    let result = load(ExposureConfig {
        secret_globs: strings(&["**/\t/**"]),
        ..ExposureConfig::default()
    });
    assert!(matches!(result, Err(ExposureConfigError::Invalid { ref reason, .. })
        if reason.starts_with("secret_glob \"**/\\t/**\" ")));
}
