use bagex::config::BagexConfig;
use bagex::config::ConfigValue;
use bagex::config::ExeBinding;
use bagex::config::ExeRule;
use bagex::envcomp::compose_environments;
use bagex::launch::render_dry_run;
use bagex::launch::should_clear_env;

fn s(t: &str) -> String {
    t.to_string()
}

fn resolved_for(bindings: Vec<(&str, &str)>) -> bagex::envcomp::ResolvedEnv {
    let config = BagexConfig {
        path: vec![],
        env: vec![],
        exe: vec![ExeRule {
            exe: s("prog"),
            bindings: bindings
                .into_iter()
                .map(|(var, value)| ExeBinding { var: s(var), value: ConfigValue::Str(s(value)) })
                .collect(),
        }],
        clear_env: None,
    };
    compose_environments(s("prog"), &config).unwrap()
}

#[test]
fn dry_run_line_exact() {
    // exe = "foo", args = ["a", "b"], env {X: "1"}, path /abs/path/to/foo.
    let env = resolved_for(vec![("X", "1")]);
    let line = render_dry_run(&env, &s("/abs/path/to/foo"), &vec![s("a"), s("b")]);
    assert_eq!(line, s("X=\"1\" /abs/path/to/foo \"a\" \"b\""));
}

#[test]
fn dry_run_line_no_env() {
    let env = resolved_for(vec![]);
    let line = render_dry_run(&env, &s("/bin/true"), &vec![s("a")]);
    assert_eq!(line, s("/bin/true \"a\""));
}

#[test]
fn dry_run_line_no_args() {
    let env = resolved_for(vec![("X", "1")]);
    let line = render_dry_run(&env, &s("/bin/true"), &vec![]);
    assert_eq!(line, s("X=\"1\" /bin/true"));
}

#[test]
fn dry_run_line_bare_path() {
    let env = resolved_for(vec![]);
    let line = render_dry_run(&env, &s("/bin/true"), &vec![]);
    assert_eq!(line, s("/bin/true"));
}

#[test]
fn dry_run_line_keeps_binding_order() {
    let env = resolved_for(vec![("A", "1"), ("B", "2")]);
    let line = render_dry_run(&env, &s("/p"), &vec![]);
    assert_eq!(line, s("A=\"1\" B=\"2\" /p"));
}

#[test]
fn clear_env_decision() {
    let mut config: BagexConfig = Default::default();
    assert!(!should_clear_env(false, &config));
    assert!(should_clear_env(true, &config));
    config.clear_env = Some(true);
    assert!(should_clear_env(false, &config));
    config.clear_env = Some(false);
    assert!(!should_clear_env(false, &config));
    assert!(should_clear_env(true, &config));
}
