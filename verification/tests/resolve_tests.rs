use bagex::error::Error;
use bagex::search::candidate_path;
use bagex::search::compose_search_path;
use bagex::search::get_exe_abs_path;
use bagex::search::join_search_path;
use bagex::search::name_requests_path;
use bagex::search::resolve_direct;

fn s(t: &str) -> String {
    t.to_string()
}

#[test]
fn first_match_wins() {
    // Strict first-match-by-order: the first qualifying directory wins.
    let path = vec![s("/a"), s("/b"), s("/c")];
    let flags = vec![false, true, true];
    let r = get_exe_abs_path(&s("prog"), &path, &flags).unwrap();
    assert_eq!(r, s("/b/prog"));
}

#[test]
fn resolution_is_repeatable() {
    let path = vec![s("/a"), s("/b"), s("/c")];
    let flags = vec![false, true, true];
    let first = get_exe_abs_path(&s("prog"), &path, &flags).unwrap();
    let second = get_exe_abs_path(&s("prog"), &path, &flags).unwrap();
    assert_eq!(first, second);
}

#[test]
fn no_match_names_the_executable() {
    let path = vec![s("/a"), s("/b")];
    let flags = vec![false, false];
    match get_exe_abs_path(&s("prog"), &path, &flags) {
        Err(Error::ExecutableNotFound { name }) => assert_eq!(name, s("prog")),
        _ => panic!("expected a not-found failure"),
    }
}

#[test]
fn empty_search_path_fails() {
    let path: Vec<String> = vec![];
    let flags: Vec<bool> = vec![];
    assert!(get_exe_abs_path(&s("prog"), &path, &flags).is_err());
}

#[test]
fn separator_requests_a_path() {
    assert!(name_requests_path(&s("bin/prog")));
    assert!(name_requests_path(&s("/abs/prog")));
    assert!(!name_requests_path(&s("prog")));
}

#[test]
fn direct_path_bypasses_scanning() {
    // A literal path answers for itself: only existence and the permission
    // bit decide, no directory is scanned.
    assert_eq!(resolve_direct(&s("/abs/prog"), true).unwrap(), s("/abs/prog"));
    match resolve_direct(&s("/abs/prog"), false) {
        Err(Error::ExecutableNotFound { name }) => assert_eq!(name, s("/abs/prog")),
        _ => panic!("expected a not-found failure"),
    }
}

#[test]
fn candidate_paths_join_cleanly() {
    assert_eq!(candidate_path(&s("/bin"), &s("ls")), s("/bin/ls"));
    assert_eq!(candidate_path(&s("/bin/"), &s("ls")), s("/bin/ls"));
    assert_eq!(candidate_path(&s(""), &s("ls")), s("ls"));
}

#[test]
fn search_path_composition() {
    // Config directories come first, home-expanded; the inherited search
    // path follows in its original order.
    let dirs = vec![s("~/bin"), s("/opt/tools")];
    let home = s("/home/u");
    let system = s("/usr/bin:/bin");
    let r = compose_search_path(&dirs, &home, &system);
    assert_eq!(r, vec![s("/home/u/bin"), s("/opt/tools"), s("/usr/bin"), s("/bin")]);
}

#[test]
fn tilde_expansion_rules() {
    let home = s("/home/u");
    let r = compose_search_path(&vec![s("~")], &home, &s(""));
    assert_eq!(r[0], s("/home/u"));
    // A tilde naming another user is not expanded.
    let r = compose_search_path(&vec![s("~other/bin")], &home, &s(""));
    assert_eq!(r[0], s("~other/bin"));
    // A tilde in the middle is not expanded.
    let r = compose_search_path(&vec![s("/a/~b")], &home, &s(""));
    assert_eq!(r[0], s("/a/~b"));
}

#[test]
fn empty_system_path_keeps_one_empty_entry() {
    let r = compose_search_path(&vec![], &s("/home/u"), &s(""));
    assert_eq!(r, vec![s("")]);
    let r = compose_search_path(&vec![], &s("/home/u"), &s("/bin:"));
    assert_eq!(r, vec![s("/bin"), s("")]);
}

#[test]
fn search_path_joins_back() {
    let path = vec![s("/home/u/bin"), s("/usr/bin"), s("/bin")];
    assert_eq!(join_search_path(&path), s("/home/u/bin:/usr/bin:/bin"));
    assert_eq!(join_search_path(&vec![]), s(""));
    assert_eq!(join_search_path(&vec![s("/a")]), s("/a"));
}
