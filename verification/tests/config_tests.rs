use bagex::config::BagexConfig;
use bagex::config::ConfigValue;
use bagex::config::EnvEntry;
use bagex::config::EnvRule;

fn s(t: &str) -> String {
    t.to_string()
}

#[test]
fn validate_accepts_well_formed_env() {
    let config = BagexConfig {
        path: vec![],
        env: vec![EnvRule {
            var: s("LANG"),
            entries: vec![
                EnvEntry { value: s("en_US"), exes: Some(vec![s("vim")]) },
                EnvEntry { value: s("de_DE"), exes: Some(vec![]) },
            ],
        }],
        exe: vec![],
        clear_env: None,
    };
    assert!(config.validate());
}

#[test]
fn validate_rejects_non_array_entry() {
    // A value entry that is not an array of executable names is fatal;
    // one bad entry invalidates the whole config.
    let config = BagexConfig {
        path: vec![],
        env: vec![
            EnvRule {
                var: s("LANG"),
                entries: vec![EnvEntry { value: s("en_US"), exes: Some(vec![s("vim")]) }],
            },
            EnvRule {
                var: s("pi"),
                entries: vec![EnvEntry { value: s("3"), exes: None }],
            },
        ],
        exe: vec![],
        clear_env: None,
    };
    assert!(!config.validate());
}

#[test]
fn validate_accepts_empty_config() {
    let config: BagexConfig = Default::default();
    assert!(config.validate());
}

#[test]
fn values_bind_their_canonical_text() {
    // A native string binds verbatim; every other literal binds its
    // canonical rendering.
    assert_eq!(ConfigValue::Str(s("en_US")).to_bound_string(), s("en_US"));
    assert_eq!(ConfigValue::Int(3).to_bound_string(), s("3"));
    assert_eq!(ConfigValue::Int(0).to_bound_string(), s("0"));
    assert_eq!(ConfigValue::Int(-42).to_bound_string(), s("-42"));
    assert_eq!(ConfigValue::Int(i64::MAX).to_bound_string(), s("9223372036854775807"));
    assert_eq!(ConfigValue::Int(i64::MIN).to_bound_string(), s("-9223372036854775808"));
    assert_eq!(ConfigValue::Bool(true).to_bound_string(), s("true"));
    assert_eq!(ConfigValue::Bool(false).to_bound_string(), s("false"));
    assert_eq!(ConfigValue::Other(s("3.1415926")).to_bound_string(), s("3.1415926"));
}
