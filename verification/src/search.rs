//! Builds the ordered directory search list and finds the first
//! qualifying candidate for a requested executable name.

use vstd::prelude::*;
use crate::error::Error;
use crate::strutil::seq_views;
use crate::strutil::seq_contains_char;
use crate::strutil::str_contains_char;
use crate::strutil::spec_split;
use crate::strutil::split_char;
use crate::strutil::spec_join;
use crate::strutil::join_strings;

verus! {

/// Home expansion: a leading `~`, standing alone or followed by `/`,
/// is replaced by the home directory; any other string is unchanged.
pub open spec fn spec_tilde_expand(s: Seq<char>, home: Seq<char>) -> Seq<char> {
    if s.len() >= 1 && s[0] == '~' && (s.len() == 1 || s[1] == '/') {
        home + s.skip(1)
    } else {
        s
    }
}

/// Relies on shellexpand::tilde_with_context: when the input starts with
/// `~` alone or `~/`, the tilde is replaced by the home directory the
/// context supplies (always present here); otherwise the input comes back
/// unchanged.
#[verifier::external_body]
fn expand_tilde(s: &String, home: &String) -> (r: String)
    ensures
        r@ == spec_tilde_expand(s@, home@),
{
    shellexpand::tilde_with_context(s.as_str(), || Some(home.as_str())).into_owned()
}

/// The effective search path: the configured directories home-expanded, in
/// file order, followed by the directories of the inherited search-path
/// variable, split on `:`, in their original order.
pub open spec fn spec_search_path(
    config_dirs: Seq<Seq<char>>,
    home: Seq<char>,
    system_path: Seq<char>,
) -> Seq<Seq<char>> {
    config_dirs.map_values(|d: Seq<char>| spec_tilde_expand(d, home)) + spec_split(
        system_path,
        ':',
    )
}

/// Composes the effective search path for this invocation from the
/// config-declared directories, the home directory, and the value of the
/// inherited search-path variable.  Config entries come first.
pub fn compose_search_path(config_dirs: &Vec<String>, home: &String, system_path: &String) -> (r:
    Vec<String>)
    ensures
        seq_views(r@) == spec_search_path(seq_views(config_dirs@), home@, system_path@),
{
    let mut out: Vec<String> = Vec::new();
    let n: usize = config_dirs.len();
    let mut i: usize = 0;
    while i < n
        invariant
            n == config_dirs@.len(),
            0 <= i <= n,
            seq_views(out@) =~= seq_views(config_dirs@).take(i as int).map_values(
                |d: Seq<char>| spec_tilde_expand(d, home@),
            ),
        decreases n - i,
    {
        let ghost gout: Seq<String> = out@;
        let ghost gi: int = i as int;
        let e = expand_tilde(&config_dirs[i], home);
        out.push(e);
        i = i + 1;
        proof {
            let f = |d: Seq<char>| spec_tilde_expand(d, home@);
            assert(seq_views(out@) =~= seq_views(gout).push(spec_tilde_expand(
                config_dirs@[gi]@,
                home@,
            )));
            assert(seq_views(config_dirs@).take(gi + 1).map_values(f) =~= seq_views(
                config_dirs@,
            ).take(gi).map_values(f).push(f(config_dirs@[gi]@)));
        }
    }
    let mut rest = split_char(system_path.as_str(), ':');
    let ghost before: Seq<String> = out@;
    let ghost added: Seq<String> = rest@;
    out.append(&mut rest);
    proof {
        assert(seq_views(config_dirs@).take(n as int) =~= seq_views(config_dirs@));
        assert(out@ =~= before + added);
        assert(seq_views(out@) =~= seq_views(before) + seq_views(added));
        assert(seq_views(out@) =~= spec_search_path(seq_views(config_dirs@), home@, system_path@));
    }
    out
}

/// Renders a search path as one search-path variable value: the
/// directories joined with `:`.
pub fn join_search_path(path: &Vec<String>) -> (r: String)
    ensures
        r@ == spec_join(seq_views(path@), ":"@),
{
    join_strings(path, ":")
}

/// The file named `name` inside `dir`, with a separator only where one
/// is needed.
pub open spec fn spec_candidate(dir: Seq<char>, name: Seq<char>) -> Seq<char> {
    if dir.len() == 0 {
        name
    } else if dir.last() == '/' {
        dir + name
    } else {
        dir + seq!['/'] + name
    }
}

/// Joins a directory and a file name into one path.
pub fn candidate_path(dir: &String, name: &String) -> (r: String)
    ensures
        r@ == spec_candidate(dir@, name@),
{
    let n: usize = dir.unicode_len();
    if n == 0 {
        let mut s = String::new();
        s.append(name.as_str());
        return s;
    }
    let mut s = String::new();
    s.append(dir.as_str());
    if dir.as_str().get_char(n - 1) != '/' {
        s.append("/");
        proof {
            reveal_strlit("/");
            assert(s@ =~= dir@ + seq!['/']);
        }
    }
    s.append(name.as_str());
    s
}

/// Whether the request names a path rather than a bare executable name:
/// it holds a path separator.
pub fn name_requests_path(name: &String) -> (r: bool)
    ensures
        r == seq_contains_char(name@, '/'),
{
    str_contains_char(name.as_str(), '/')
}

/// Checks a requested literal path: directory scanning is bypassed, and
/// the path answers for itself — it qualifies exactly when it exists as a
/// regular file with an execute permission bit, which `is_exec` reports.
pub fn resolve_direct(name: &String, is_exec: bool) -> (r: Result<String, Error>)
    ensures
        match r {
            Ok(p) => is_exec && p@ == name@,
            Err(e) => !is_exec && (e matches Error::ExecutableNotFound { name: n } && n@ == name@),
        },
{
    if is_exec {
        Ok(name.clone())
    } else {
        Err(Error::ExecutableNotFound { name: name.clone() })
    }
}

/// The index of the first qualifying directory, if any.
pub open spec fn spec_first_hit(exec_ok: Seq<bool>) -> Option<int> {
    if exists|i: int| 0 <= i < exec_ok.len() && exec_ok[i] {
        let i = choose|i: int| 0 <= i < exec_ok.len() && exec_ok[i] && (forall|j: int|
            0 <= j < i ==> !exec_ok[j]);
        Some(i)
    } else {
        None
    }
}

/// Scans the search path in order for the requested name.  `exec_ok[i]`
/// reports whether `path[i]` joined with the name exists as a regular file
/// with an execute permission bit.  Strictly first match by order: the
/// first qualifying directory wins, and with no qualifying directory the
/// request fails, naming the executable.
pub fn get_exe_abs_path(req_exe_name: &String, path: &Vec<String>, exec_ok: &Vec<bool>) -> (r:
    Result<String, Error>)
    requires
        exec_ok@.len() == path@.len(),
    ensures
        match r {
            Ok(p) => {
                exists|i: int|
                    0 <= i < path@.len() && exec_ok@[i] && p@ == spec_candidate(
                        path@[i]@,
                        req_exe_name@,
                    ) && (forall|j: int| 0 <= j < i ==> !exec_ok@[j])
            },
            Err(e) => (forall|i: int| 0 <= i < path@.len() ==> !exec_ok@[i]) && (e matches
            Error::ExecutableNotFound { name: n } && n@ == req_exe_name@),
        },
{
    let n: usize = path.len();
    let mut i: usize = 0;
    while i < n
        invariant
            n == path@.len(),
            exec_ok@.len() == path@.len(),
            0 <= i <= n,
            forall|j: int| 0 <= j < i ==> !exec_ok@[j],
        decreases n - i,
    {
        if exec_ok[i] {
            let p = candidate_path(&path[i], req_exe_name);
            return Ok(p);
        }
        i = i + 1;
    }
    Err(Error::ExecutableNotFound { name: req_exe_name.clone() })
}

/// Repeated resolution is deterministic and order-respecting: what
/// `get_exe_abs_path` returns is a function of the search path, the flags,
/// and the name alone — the first qualifying directory by list order, every
/// time.
pub proof fn lemma_resolve_deterministic(exec_ok: Seq<bool>, i1: int, i2: int)
    requires
        0 <= i1 < exec_ok.len() && exec_ok[i1] && (forall|j: int| 0 <= j < i1 ==> !exec_ok[j]),
        0 <= i2 < exec_ok.len() && exec_ok[i2] && (forall|j: int| 0 <= j < i2 ==> !exec_ok[j]),
    ensures
        i1 == i2,
        spec_first_hit(exec_ok) == Some(i1),
{
    if i1 < i2 {
        assert(!exec_ok[i1]);
    }
    if i2 < i1 {
        assert(!exec_ok[i2]);
    }
    assert(exists|i: int|
        0 <= i < exec_ok.len() && exec_ok[i] && (forall|j: int| 0 <= j < i ==> !exec_ok[j]));
    let w = choose|i: int|
        0 <= i < exec_ok.len() && exec_ok[i] && (forall|j: int| 0 <= j < i ==> !exec_ok[j]);
    if w < i1 {
        assert(!exec_ok[w]);
    }
    if i1 < w {
        assert(!exec_ok[i1]);
    }
}

} // verus!
