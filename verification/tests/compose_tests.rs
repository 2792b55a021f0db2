use bagex::config::BagexConfig;
use bagex::config::ConfigValue;
use bagex::config::EnvEntry;
use bagex::config::EnvRule;
use bagex::config::ExeBinding;
use bagex::config::ExeRule;
use bagex::envcomp::compose_environments;
use bagex::envcomp::spawn_environment;
use bagex::envcomp::EnvPair;
use bagex::error::Error;

fn s(t: &str) -> String {
    t.to_string()
}

fn empty_config() -> BagexConfig {
    BagexConfig { path: vec![], env: vec![], exe: vec![], clear_env: None }
}

#[test]
fn compose_both_phases() {
    // env = {LANG: {"en_US": ["vim"]}} and exe = {"vim": {EDITOR: "vim"}}:
    // composing for "vim" yields {LANG: "en_US", EDITOR: "vim"}.
    let config = BagexConfig {
        path: vec![],
        env: vec![EnvRule {
            var: s("LANG"),
            entries: vec![EnvEntry { value: s("en_US"), exes: Some(vec![s("vim")]) }],
        }],
        exe: vec![ExeRule {
            exe: s("vim"),
            bindings: vec![ExeBinding { var: s("EDITOR"), value: ConfigValue::Str(s("vim")) }],
        }],
        clear_env: None,
    };
    let r = compose_environments(s("vim"), &config).unwrap();
    assert_eq!(r.len(), 2);
    assert_eq!(r.lookup(&s("LANG")), Some(s("en_US")));
    assert_eq!(r.lookup(&s("EDITOR")), Some(s("vim")));
    // Phase one binds before phase two, entries in order.
    assert_eq!(r.pairs[0].name, s("LANG"));
    assert_eq!(r.pairs[0].value, s("en_US"));
    assert_eq!(r.pairs[1].name, s("EDITOR"));
    assert_eq!(r.pairs[1].value, s("vim"));
}

#[test]
fn compose_empty_config() {
    let r = compose_environments(s("vim"), &empty_config()).unwrap();
    assert_eq!(r.len(), 0);
    assert_eq!(r.lookup(&s("LANG")), None);
}

#[test]
fn compose_skips_other_targets() {
    let config = BagexConfig {
        path: vec![],
        env: vec![EnvRule {
            var: s("LANG"),
            entries: vec![EnvEntry { value: s("en_US"), exes: Some(vec![s("emacs")]) }],
        }],
        exe: vec![ExeRule {
            exe: s("emacs"),
            bindings: vec![ExeBinding { var: s("EDITOR"), value: ConfigValue::Str(s("emacs")) }],
        }],
        clear_env: None,
    };
    let r = compose_environments(s("vim"), &config).unwrap();
    assert_eq!(r.len(), 0);
}

#[test]
fn compose_duplicate_within_env() {
    // The same variable qualifies twice for the same target: fatal.
    let config = BagexConfig {
        path: vec![],
        env: vec![EnvRule {
            var: s("X"),
            entries: vec![
                EnvEntry { value: s("1"), exes: Some(vec![s("prog")]) },
                EnvEntry { value: s("2"), exes: Some(vec![s("prog")]) },
            ],
        }],
        exe: vec![],
        clear_env: None,
    };
    match compose_environments(s("prog"), &config) {
        Err(Error::DuplicateEnvironmentBinding { var }) => assert_eq!(var, s("X")),
        _ => panic!("expected a duplicate-binding failure"),
    }
}

#[test]
fn compose_duplicate_across_phases() {
    let config = BagexConfig {
        path: vec![],
        env: vec![EnvRule {
            var: s("X"),
            entries: vec![EnvEntry { value: s("1"), exes: Some(vec![s("prog")]) }],
        }],
        exe: vec![ExeRule {
            exe: s("prog"),
            bindings: vec![ExeBinding { var: s("X"), value: ConfigValue::Str(s("2")) }],
        }],
        clear_env: None,
    };
    match compose_environments(s("prog"), &config) {
        Err(Error::DuplicateEnvironmentBinding { var }) => assert_eq!(var, s("X")),
        _ => panic!("expected a duplicate-binding failure"),
    }
}

#[test]
fn compose_same_variable_for_two_targets() {
    // One variable, two entries for different targets: each target gets its own.
    let config = BagexConfig {
        path: vec![],
        env: vec![EnvRule {
            var: s("LANG"),
            entries: vec![
                EnvEntry { value: s("en_US"), exes: Some(vec![s("vim")]) },
                EnvEntry { value: s("de_DE"), exes: Some(vec![s("emacs")]) },
            ],
        }],
        exe: vec![],
        clear_env: None,
    };
    let r = compose_environments(s("emacs"), &config).unwrap();
    assert_eq!(r.len(), 1);
    assert_eq!(r.lookup(&s("LANG")), Some(s("de_DE")));
}

#[test]
fn compose_skips_malformed_entries() {
    // An entry that did not come as a list binds nothing during composition.
    let config = BagexConfig {
        path: vec![],
        env: vec![EnvRule {
            var: s("PI"),
            entries: vec![EnvEntry { value: s("3"), exes: None }],
        }],
        exe: vec![],
        clear_env: None,
    };
    let r = compose_environments(s("printenv"), &config).unwrap();
    assert_eq!(r.len(), 0);
}

#[test]
fn compose_coerces_exe_values() {
    let config = BagexConfig {
        path: vec![],
        env: vec![],
        exe: vec![ExeRule {
            exe: s("prog"),
            bindings: vec![
                ExeBinding { var: s("N"), value: ConfigValue::Int(3) },
                ExeBinding { var: s("FLAG"), value: ConfigValue::Bool(true) },
                ExeBinding { var: s("PI"), value: ConfigValue::Other(s("3.1415926")) },
            ],
        }],
        clear_env: None,
    };
    let r = compose_environments(s("prog"), &config).unwrap();
    assert_eq!(r.lookup(&s("N")), Some(s("3")));
    assert_eq!(r.lookup(&s("FLAG")), Some(s("true")));
    assert_eq!(r.lookup(&s("PI")), Some(s("3.1415926")));
}

#[test]
fn spawn_environment_clear_is_exact() {
    // clear_env = true: the spawned environment is the resolved mapping
    // exactly, nothing inherited survives.
    let config = BagexConfig {
        path: vec![],
        env: vec![],
        exe: vec![ExeRule {
            exe: s("prog"),
            bindings: vec![ExeBinding { var: s("A"), value: ConfigValue::Str(s("1")) }],
        }],
        clear_env: None,
    };
    let resolved = compose_environments(s("prog"), &config).unwrap();
    let inherited = vec![
        EnvPair { name: s("HOME"), value: s("/home/u") },
        EnvPair { name: s("A"), value: s("old") },
    ];
    let spawned = spawn_environment(&inherited, &resolved, true);
    assert_eq!(spawned.len(), 1);
    assert_eq!(spawned.lookup(&s("A")), Some(s("1")));
    assert_eq!(spawned.lookup(&s("HOME")), None);
}

#[test]
fn spawn_environment_overlays_inherited() {
    let config = BagexConfig {
        path: vec![],
        env: vec![],
        exe: vec![ExeRule {
            exe: s("prog"),
            bindings: vec![
                ExeBinding { var: s("B"), value: ConfigValue::Str(s("9")) },
                ExeBinding { var: s("C"), value: ConfigValue::Str(s("3")) },
            ],
        }],
        clear_env: None,
    };
    let resolved = compose_environments(s("prog"), &config).unwrap();
    let inherited = vec![
        EnvPair { name: s("A"), value: s("1") },
        EnvPair { name: s("B"), value: s("2") },
    ];
    let spawned = spawn_environment(&inherited, &resolved, false);
    assert_eq!(spawned.len(), 3);
    assert_eq!(spawned.lookup(&s("A")), Some(s("1")));
    assert_eq!(spawned.lookup(&s("B")), Some(s("9")));
    assert_eq!(spawned.lookup(&s("C")), Some(s("3")));
}

#[test]
fn error_messages() {
    let e = Error::DuplicateEnvironmentBinding { var: s("X") };
    assert_eq!(e.message(), s("Environment variable X is specified multiple times"));
    let e = Error::ExecutableNotFound { name: s("vim") };
    assert_eq!(
        e.message(),
        s("Requested executable 'vim' cannot be found anywhere in $PATH"),
    );
}
