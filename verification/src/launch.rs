//! What the launcher consumes: the dry-run command line and the
//! clear/inherit decision.

use vstd::prelude::*;
use crate::config::BagexConfig;
use crate::envcomp::ResolvedEnv;
use crate::strutil::seq_views;
use crate::strutil::spec_join;
use crate::strutil::spec_trim;
use crate::strutil::join_strings;
use crate::strutil::trim_spaces;

verus! {

/// One rendered binding on the dry-run line: `NAME="value"`.
pub open spec fn spec_env_item(name: Seq<char>, value: Seq<char>) -> Seq<char> {
    name + "=\""@ + value + "\""@
}

/// One positional argument on the dry-run line, double-quoted.
pub open spec fn spec_quoted(s: Seq<char>) -> Seq<char> {
    "\""@ + s + "\""@
}

/// The dry-run line: the bindings rendered `NAME="value"` and space-joined,
/// then the executable path, then each argument double-quoted, all
/// space-joined, with the spaces at both ends dropped.
pub open spec fn spec_dry_run_line(
    env: Seq<(Seq<char>, Seq<char>)>,
    exe_path: Seq<char>,
    args: Seq<Seq<char>>,
) -> Seq<char> {
    let envs = spec_join(env.map_values(|p: (Seq<char>, Seq<char>)| spec_env_item(p.0, p.1)), " "@);
    let argss = spec_join(args.map_values(|a: Seq<char>| spec_quoted(a)), " "@);
    spec_trim(spec_join(seq![envs, exe_path, argss], " "@))
}

/// Renders the command that would run, without running anything.
pub fn render_dry_run(env: &ResolvedEnv, exe_path: &String, args: &Vec<String>) -> (r: String)
    ensures
        r@ == spec_dry_run_line(env.bindings(), exe_path@, seq_views(args@)),
{
    let mut env_items: Vec<String> = Vec::new();
    let n: usize = env.pairs.len();
    let mut i: usize = 0;
    proof {
        assert(seq_views(env_items@) =~= env.bindings().take(0).map_values(
            |p: (Seq<char>, Seq<char>)| spec_env_item(p.0, p.1),
        ));
    }
    while i < n
        invariant
            n == env.pairs@.len(),
            0 <= i <= n,
            seq_views(env_items@) =~= env.bindings().take(i as int).map_values(
                |p: (Seq<char>, Seq<char>)| spec_env_item(p.0, p.1),
            ),
        decreases n - i,
    {
        let ghost gitems: Seq<String> = env_items@;
        let mut item = env.pairs[i].name.clone();
        item.append("=\"");
        item.append(env.pairs[i].value.as_str());
        item.append("\"");
        env_items.push(item);
        i = i + 1;
        proof {
            let f = |p: (Seq<char>, Seq<char>)| spec_env_item(p.0, p.1);
            assert(env.bindings()[i - 1] == (env.pairs@[i - 1].name@, env.pairs@[i - 1].value@));
            assert(seq_views(env_items@) =~= seq_views(gitems).push(f(env.bindings()[i - 1])));
            assert(env.bindings().take(i as int).map_values(f) =~= env.bindings().take(
                i as int - 1,
            ).map_values(f).push(f(env.bindings()[i - 1])));
        }
    }
    proof {
        assert(env.bindings().take(n as int) =~= env.bindings());
    }
    let envs_string = join_strings(&env_items, " ");
    let mut quoted: Vec<String> = Vec::new();
    let m: usize = args.len();
    let mut j: usize = 0;
    proof {
        assert(seq_views(quoted@) =~= seq_views(args@).take(0).map_values(
            |a: Seq<char>| spec_quoted(a),
        ));
    }
    while j < m
        invariant
            m == args@.len(),
            0 <= j <= m,
            seq_views(quoted@) =~= seq_views(args@).take(j as int).map_values(
                |a: Seq<char>| spec_quoted(a),
            ),
        decreases m - j,
    {
        let ghost gq: Seq<String> = quoted@;
        let mut item = String::from_str("\"");
        item.append(args[j].as_str());
        item.append("\"");
        quoted.push(item);
        j = j + 1;
        proof {
            let g = |a: Seq<char>| spec_quoted(a);
            assert(seq_views(quoted@) =~= seq_views(gq).push(g(seq_views(args@)[j - 1])));
            assert(seq_views(args@).take(j as int).map_values(g) =~= seq_views(args@).take(
                j as int - 1,
            ).map_values(g).push(g(seq_views(args@)[j - 1])));
        }
    }
    proof {
        assert(seq_views(args@).take(m as int) =~= seq_views(args@));
    }
    let args_string = join_strings(&quoted, " ");
    let mut parts: Vec<String> = Vec::new();
    let ghost genvs: Seq<char> = envs_string@;
    let ghost gargs: Seq<char> = args_string@;
    parts.push(envs_string);
    parts.push(exe_path.clone());
    parts.push(args_string);
    let joined = join_strings(&parts, " ");
    proof {
        assert(seq_views(parts@) =~= seq![genvs, exe_path@, gargs]);
    }
    trim_spaces(joined.as_str())
}

/// Whether the spawned process starts from an empty environment: asked on
/// the command line, or declared by the config, which defaults to inherit.
pub fn should_clear_env(flag: bool, config: &BagexConfig) -> (r: bool)
    ensures
        r == (flag || (config.clear_env matches Some(b) && b)),
{
    flag || match config.clear_env {
        Some(b) => b,
        None => false,
    }
}

} // verus!
