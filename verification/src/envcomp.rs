//! Derives the final variable-to-value mapping for one target executable
//! from the two config sections, enforcing at-most-one-binding-per-variable.

use vstd::prelude::*;
use crate::config::BagexConfig;
use crate::config::EnvEntry;
use crate::config::EnvRule;
use crate::config::ExeBinding;
use crate::config::ExeRule;
use crate::config::spec_coerce;
use crate::error::Error;
use crate::strutil::seq_contains_string;
use crate::strutil::strings_contain;

verus! {

/// One resolved binding: a variable name and the value it receives.
#[derive(Debug)]
pub struct EnvPair {
    /// The variable.
    pub name: String,
    /// Its value.
    pub value: String,
}

/// The views of a sequence of bindings.
pub open spec fn pair_views(ps: Seq<EnvPair>) -> Seq<(Seq<char>, Seq<char>)> {
    ps.map_values(|p: EnvPair| (p.name@, p.value@))
}

/// Whether some binding of `acc` already names `k`.
pub open spec fn acc_has_key(acc: Seq<(Seq<char>, Seq<char>)>, k: Seq<char>) -> bool {
    exists|i: int| 0 <= i < acc.len() && acc[i].0 == k
}

/// Whether no variable name occurs twice.
pub open spec fn distinct_keys(acc: Seq<(Seq<char>, Seq<char>)>) -> bool {
    forall|i: int, j: int| 0 <= i < j < acc.len() ==> acc[i].0 != acc[j].0
}

/// The final environment computed for one target executable: a mapping
/// from variable name to value, keys unique, in binding order.
#[derive(Debug)]
pub struct ResolvedEnv {
    /// The bindings, in the order they were made.
    pub pairs: Vec<EnvPair>,
}

impl ResolvedEnv {
    /// The bindings as ghost data.
    pub open spec fn bindings(self) -> Seq<(Seq<char>, Seq<char>)> {
        pair_views(self.pairs@)
    }

    /// Well-formed: no variable is bound twice.
    pub open spec fn wf(self) -> bool {
        distinct_keys(self.bindings())
    }
}

/// Binding a variable into the accumulator: a second binding of the same
/// variable is the fatal duplicate.
pub open spec fn spec_bind(
    acc: Seq<(Seq<char>, Seq<char>)>,
    var: Seq<char>,
    val: Seq<char>,
) -> Result<Seq<(Seq<char>, Seq<char>)>, Seq<char>> {
    if acc_has_key(acc, var) {
        Err(var)
    } else {
        Ok(acc.push((var, val)))
    }
}

/// Whether this value entry sends its value to `target`.
pub open spec fn spec_entry_matches(e: EnvEntry, target: Seq<char>) -> bool {
    e.exes matches Some(l) && seq_contains_string(l@, target)
}

/// Phase one, one variable: its value entries in order, binding every
/// entry whose executable list holds `target`.
pub open spec fn spec_run_entries(
    acc: Seq<(Seq<char>, Seq<char>)>,
    var: Seq<char>,
    entries: Seq<EnvEntry>,
    target: Seq<char>,
) -> Result<Seq<(Seq<char>, Seq<char>)>, Seq<char>>
    decreases entries.len(),
{
    if entries.len() == 0 {
        Ok(acc)
    } else {
        if spec_entry_matches(entries[0], target) {
            match spec_bind(acc, var, entries[0].value@) {
                Ok(acc2) => spec_run_entries(acc2, var, entries.drop_first(), target),
                Err(v) => Err(v),
            }
        } else {
            spec_run_entries(acc, var, entries.drop_first(), target)
        }
    }
}

/// Phase one: the `env` section's rules in order.
pub open spec fn spec_run_env_rules(
    acc: Seq<(Seq<char>, Seq<char>)>,
    rules: Seq<EnvRule>,
    target: Seq<char>,
) -> Result<Seq<(Seq<char>, Seq<char>)>, Seq<char>>
    decreases rules.len(),
{
    if rules.len() == 0 {
        Ok(acc)
    } else {
        match spec_run_entries(acc, rules[0].var@, rules[0].entries@, target) {
            Ok(acc2) => spec_run_env_rules(acc2, rules.drop_first(), target),
            Err(v) => Err(v),
        }
    }
}

/// Phase two, one executable: its `variable = value` pairs in order,
/// each value coerced to the string it binds.
pub open spec fn spec_run_bindings(
    acc: Seq<(Seq<char>, Seq<char>)>,
    bs: Seq<ExeBinding>,
) -> Result<Seq<(Seq<char>, Seq<char>)>, Seq<char>>
    decreases bs.len(),
{
    if bs.len() == 0 {
        Ok(acc)
    } else {
        match spec_bind(acc, bs[0].var@, spec_coerce(bs[0].value)) {
            Ok(acc2) => spec_run_bindings(acc2, bs.drop_first()),
            Err(v) => Err(v),
        }
    }
}

/// Phase two: the `exe` section's rules in order; only rules naming
/// `target` bind.
pub open spec fn spec_run_exe_rules(
    acc: Seq<(Seq<char>, Seq<char>)>,
    rules: Seq<ExeRule>,
    target: Seq<char>,
) -> Result<Seq<(Seq<char>, Seq<char>)>, Seq<char>>
    decreases rules.len(),
{
    if rules.len() == 0 {
        Ok(acc)
    } else if rules[0].exe@ == target {
        match spec_run_bindings(acc, rules[0].bindings@) {
            Ok(acc2) => spec_run_exe_rules(acc2, rules.drop_first(), target),
            Err(v) => Err(v),
        }
    } else {
        spec_run_exe_rules(acc, rules.drop_first(), target)
    }
}

/// The whole composition: phase one over the `env` section, then phase two
/// over the `exe` section, both writing into one accumulator.
pub open spec fn spec_compose(target: Seq<char>, c: BagexConfig) -> Result<
    Seq<(Seq<char>, Seq<char>)>,
    Seq<char>,
> {
    match spec_run_env_rules(Seq::empty(), c.env@, target) {
        Ok(acc) => spec_run_exe_rules(acc, c.exe@, target),
        Err(v) => Err(v),
    }
}

/// The qualifying bindings one variable of the `env` section offers
/// `target`, in entry order.
pub open spec fn spec_entry_candidates(
    var: Seq<char>,
    entries: Seq<EnvEntry>,
    target: Seq<char>,
) -> Seq<(Seq<char>, Seq<char>)>
    decreases entries.len(),
{
    if entries.len() == 0 {
        Seq::empty()
    } else {
        (if spec_entry_matches(entries[0], target) {
            seq![(var, entries[0].value@)]
        } else {
            Seq::empty()
        }) + spec_entry_candidates(var, entries.drop_first(), target)
    }
}

/// The qualifying bindings of the whole `env` section, in rule order.
pub open spec fn spec_env_candidates(rules: Seq<EnvRule>, target: Seq<char>) -> Seq<
    (Seq<char>, Seq<char>),
>
    decreases rules.len(),
{
    if rules.len() == 0 {
        Seq::empty()
    } else {
        spec_entry_candidates(rules[0].var@, rules[0].entries@, target) + spec_env_candidates(
            rules.drop_first(),
            target,
        )
    }
}

/// The bindings one executable's rule declares, in order, values coerced.
pub open spec fn spec_binding_candidates(bs: Seq<ExeBinding>) -> Seq<(Seq<char>, Seq<char>)>
    decreases bs.len(),
{
    if bs.len() == 0 {
        Seq::empty()
    } else {
        seq![(bs[0].var@, spec_coerce(bs[0].value))] + spec_binding_candidates(bs.drop_first())
    }
}

/// The qualifying bindings of the whole `exe` section, in rule order.
pub open spec fn spec_exe_candidates(rules: Seq<ExeRule>, target: Seq<char>) -> Seq<
    (Seq<char>, Seq<char>),
>
    decreases rules.len(),
{
    if rules.len() == 0 {
        Seq::empty()
    } else {
        (if rules[0].exe@ == target {
            spec_binding_candidates(rules[0].bindings@)
        } else {
            Seq::empty()
        }) + spec_exe_candidates(rules.drop_first(), target)
    }
}

/// Every binding the config offers `target`, both phases in order.
pub open spec fn spec_candidates(target: Seq<char>, c: BagexConfig) -> Seq<
    (Seq<char>, Seq<char>),
> {
    spec_env_candidates(c.env@, target) + spec_exe_candidates(c.exe@, target)
}

proof fn lemma_distinct_push(acc: Seq<(Seq<char>, Seq<char>)>, var: Seq<char>, val: Seq<char>)
    requires
        distinct_keys(acc),
        !acc_has_key(acc, var),
    ensures
        distinct_keys(acc.push((var, val))),
{
    let acc2 = acc.push((var, val));
    assert forall|a: int, b: int| 0 <= a < b < acc2.len() implies acc2[a].0 != acc2[b].0 by {
        if b == acc.len() {
            assert(acc2[a].0 == acc[a].0);
        }
    }
}

proof fn lemma_not_distinct_extend(a: Seq<(Seq<char>, Seq<char>)>, b: Seq<(Seq<char>, Seq<char>)>)
    requires
        !distinct_keys(a),
    ensures
        !distinct_keys(a + b),
{
    let (i, j) = choose|i: int, j: int| 0 <= i < j < a.len() && a[i].0 == a[j].0;
    assert((a + b)[i].0 == a[i].0);
    assert((a + b)[j].0 == a[j].0);
}

proof fn lemma_run_entries_cands(
    acc: Seq<(Seq<char>, Seq<char>)>,
    var: Seq<char>,
    entries: Seq<EnvEntry>,
    target: Seq<char>,
)
    requires
        distinct_keys(acc),
    ensures
        distinct_keys(acc + spec_entry_candidates(var, entries, target)) ==> spec_run_entries(
            acc,
            var,
            entries,
            target,
        ) == Ok::<Seq<(Seq<char>, Seq<char>)>, Seq<char>>(
            acc + spec_entry_candidates(var, entries, target),
        ),
        !distinct_keys(acc + spec_entry_candidates(var, entries, target)) ==> spec_run_entries(
            acc,
            var,
            entries,
            target,
        ) is Err,
    decreases entries.len(),
{
    let cs = spec_entry_candidates(var, entries, target);
    if entries.len() == 0 {
        assert(acc + cs =~= acc);
    } else {
        let rest = entries.drop_first();
        let cs2 = spec_entry_candidates(var, rest, target);
        if spec_entry_matches(entries[0], target) {
            assert(cs =~= seq![(var, entries[0].value@)] + cs2);
            if acc_has_key(acc, var) {
                let i = choose|i: int| 0 <= i < acc.len() && acc[i].0 == var;
                assert((acc + cs)[i].0 == var);
                assert((acc + cs)[acc.len() as int].0 == var);
                assert(!distinct_keys(acc + cs));
            } else {
                let acc2 = acc.push((var, entries[0].value@));
                lemma_distinct_push(acc, var, entries[0].value@);
                lemma_run_entries_cands(acc2, var, rest, target);
                assert(acc2 + cs2 =~= acc + cs);
            }
        } else {
            assert(cs =~= cs2);
            lemma_run_entries_cands(acc, var, rest, target);
        }
    }
}

proof fn lemma_run_env_rules_cands(
    acc: Seq<(Seq<char>, Seq<char>)>,
    rules: Seq<EnvRule>,
    target: Seq<char>,
)
    requires
        distinct_keys(acc),
    ensures
        distinct_keys(acc + spec_env_candidates(rules, target)) ==> spec_run_env_rules(
            acc,
            rules,
            target,
        ) == Ok::<Seq<(Seq<char>, Seq<char>)>, Seq<char>>(
            acc + spec_env_candidates(rules, target),
        ),
        !distinct_keys(acc + spec_env_candidates(rules, target)) ==> spec_run_env_rules(
            acc,
            rules,
            target,
        ) is Err,
    decreases rules.len(),
{
    let cs = spec_env_candidates(rules, target);
    if rules.len() == 0 {
        assert(acc + cs =~= acc);
    } else {
        let rest = rules.drop_first();
        let head_cs = spec_entry_candidates(rules[0].var@, rules[0].entries@, target);
        let rest_cs = spec_env_candidates(rest, target);
        lemma_run_entries_cands(acc, rules[0].var@, rules[0].entries@, target);
        assert((acc + head_cs) + rest_cs =~= acc + cs);
        if distinct_keys(acc + head_cs) {
            lemma_run_env_rules_cands(acc + head_cs, rest, target);
        } else {
            lemma_not_distinct_extend(acc + head_cs, rest_cs);
        }
    }
}

proof fn lemma_run_bindings_cands(acc: Seq<(Seq<char>, Seq<char>)>, bs: Seq<ExeBinding>)
    requires
        distinct_keys(acc),
    ensures
        distinct_keys(acc + spec_binding_candidates(bs)) ==> spec_run_bindings(acc, bs) == Ok::<
            Seq<(Seq<char>, Seq<char>)>,
            Seq<char>,
        >(acc + spec_binding_candidates(bs)),
        !distinct_keys(acc + spec_binding_candidates(bs)) ==> spec_run_bindings(acc, bs) is Err,
    decreases bs.len(),
{
    let cs = spec_binding_candidates(bs);
    if bs.len() == 0 {
        assert(acc + cs =~= acc);
    } else {
        let rest = bs.drop_first();
        let cs2 = spec_binding_candidates(rest);
        let var = bs[0].var@;
        let val = spec_coerce(bs[0].value);
        assert(cs =~= seq![(var, val)] + cs2);
        if acc_has_key(acc, var) {
            let i = choose|i: int| 0 <= i < acc.len() && acc[i].0 == var;
            assert((acc + cs)[i].0 == var);
            assert((acc + cs)[acc.len() as int].0 == var);
            assert(!distinct_keys(acc + cs));
        } else {
            let acc2 = acc.push((var, val));
            lemma_distinct_push(acc, var, val);
            lemma_run_bindings_cands(acc2, rest);
            assert(acc2 + cs2 =~= acc + cs);
        }
    }
}

proof fn lemma_run_exe_rules_cands(
    acc: Seq<(Seq<char>, Seq<char>)>,
    rules: Seq<ExeRule>,
    target: Seq<char>,
)
    requires
        distinct_keys(acc),
    ensures
        distinct_keys(acc + spec_exe_candidates(rules, target)) ==> spec_run_exe_rules(
            acc,
            rules,
            target,
        ) == Ok::<Seq<(Seq<char>, Seq<char>)>, Seq<char>>(
            acc + spec_exe_candidates(rules, target),
        ),
        !distinct_keys(acc + spec_exe_candidates(rules, target)) ==> spec_run_exe_rules(
            acc,
            rules,
            target,
        ) is Err,
    decreases rules.len(),
{
    let cs = spec_exe_candidates(rules, target);
    if rules.len() == 0 {
        assert(acc + cs =~= acc);
    } else {
        let rest = rules.drop_first();
        let rest_cs = spec_exe_candidates(rest, target);
        if rules[0].exe@ == target {
            let head_cs = spec_binding_candidates(rules[0].bindings@);
            lemma_run_bindings_cands(acc, rules[0].bindings@);
            assert((acc + head_cs) + rest_cs =~= acc + cs);
            if distinct_keys(acc + head_cs) {
                lemma_run_exe_rules_cands(acc + head_cs, rest, target);
            } else {
                lemma_not_distinct_extend(acc + head_cs, rest_cs);
            }
        } else {
            assert(cs =~= rest_cs);
            lemma_run_exe_rules_cands(acc, rest, target);
        }
    }
}

/// Where no variable is bound more than once for `target`, composition
/// terminates with exactly the qualifying bindings of both phases, in
/// order.
pub proof fn lemma_compose_exact(target: Seq<char>, c: BagexConfig)
    requires
        distinct_keys(spec_candidates(target, c)),
    ensures
        spec_compose(target, c) == Ok::<Seq<(Seq<char>, Seq<char>)>, Seq<char>>(
            spec_candidates(target, c),
        ),
{
    let e = spec_env_candidates(c.env@, target);
    let x = spec_exe_candidates(c.exe@, target);
    let empty = Seq::<(Seq<char>, Seq<char>)>::empty();
    assert(empty + e =~= e);
    lemma_run_env_rules_cands(empty, c.env@, target);
    if !distinct_keys(e) {
        lemma_not_distinct_extend(e, x);
    }
    lemma_run_exe_rules_cands(e, c.exe@, target);
}

/// Where some variable is bound twice for `target`, composition fails:
/// the duplicate is fatal and no mapping comes out.
pub proof fn lemma_compose_duplicate(target: Seq<char>, c: BagexConfig)
    requires
        !distinct_keys(spec_candidates(target, c)),
    ensures
        spec_compose(target, c) is Err,
{
    let e = spec_env_candidates(c.env@, target);
    let x = spec_exe_candidates(c.exe@, target);
    let empty = Seq::<(Seq<char>, Seq<char>)>::empty();
    assert(empty + e =~= e);
    lemma_run_env_rules_cands(empty, c.env@, target);
    if distinct_keys(e) {
        lemma_run_exe_rules_cands(e, c.exe@, target);
    } else {
        lemma_not_distinct_extend(e, x);
    }
}

/// Whether some binding of `acc` already names `var`.
fn acc_contains_var(acc: &Vec<EnvPair>, var: &String) -> (r: bool)
    ensures
        r == acc_has_key(pair_views(acc@), var@),
{
    let n: usize = acc.len();
    let mut i: usize = 0;
    while i < n
        invariant
            n == acc@.len(),
            0 <= i <= n,
            forall|j: int| 0 <= j < i ==> acc@[j].name@ != var@,
        decreases n - i,
    {
        if acc[i].name.eq(var) {
            proof {
                assert(pair_views(acc@)[i as int].0 == var@);
            }
            return true;
        }
        i = i + 1;
    }
    proof {
        assert forall|k: int| 0 <= k < pair_views(acc@).len() implies pair_views(acc@)[k].0
            != var@ by {
            assert(pair_views(acc@)[k].0 == acc@[k].name@);
        }
    }
    false
}

/// Composes the environment for `req_exe_name` from the config: first the
/// `env` section's value-to-executable rules, then the `exe` section's
/// executable-to-value rules, every binding checked against all earlier
/// ones.  A variable bound twice for this target is the fatal
/// `DuplicateEnvironmentBinding`, and composition stops there.
#[verifier::loop_isolation(false)]
pub fn compose_environments(req_exe_name: String, config: &BagexConfig) -> (r: Result<
    ResolvedEnv,
    Error,
>)
    ensures
        match r {
            Ok(env) => env.wf() && spec_compose(req_exe_name@, *config) == Ok::<
                Seq<(Seq<char>, Seq<char>)>,
                Seq<char>,
            >(env.bindings()),
            Err(e) => e matches Error::DuplicateEnvironmentBinding { var } && spec_compose(
                req_exe_name@,
                *config,
            ) == Err::<Seq<(Seq<char>, Seq<char>)>, Seq<char>>(var@),
        },
{
    let ghost target: Seq<char> = req_exe_name@;
    let ghost total1: Result<Seq<(Seq<char>, Seq<char>)>, Seq<char>> = spec_run_env_rules(
        Seq::empty(),
        config.env@,
        target,
    );
    let mut acc: Vec<EnvPair> = Vec::new();
    let n: usize = config.env.len();
    let mut i: usize = 0;
    proof {
        assert(pair_views(acc@) =~= Seq::<(Seq<char>, Seq<char>)>::empty());
        assert(config.env@.skip(0) =~= config.env@);
    }
    while i < n
        invariant
            0 <= i <= n,
            distinct_keys(pair_views(acc@)),
            spec_run_env_rules(pair_views(acc@), config.env@.skip(i as int), target) == total1,
        decreases n - i,
    {
        let rule = &config.env[i];
        let m: usize = rule.entries.len();
        let mut j: usize = 0;
        proof {
            assert(config.env@.skip(i as int)[0] == config.env@[i as int]);
            assert(config.env@.skip(i as int).drop_first() =~= config.env@.skip(i as int + 1));
            assert(rule.entries@.skip(0) =~= rule.entries@);
        }
        while j < m
            invariant
                0 <= j <= m,
                distinct_keys(pair_views(acc@)),
                (match spec_run_entries(
                    pair_views(acc@),
                    rule.var@,
                    rule.entries@.skip(j as int),
                    target,
                ) {
                    Ok(a2) => spec_run_env_rules(a2, config.env@.skip(i as int + 1), target),
                    Err(v) => Err(v),
                }) == total1,
            decreases m - j,
        {
            proof {
                assert(rule.entries@.skip(j as int)[0] == rule.entries@[j as int]);
                assert(rule.entries@.skip(j as int).drop_first() =~= rule.entries@.skip(
                    j as int + 1,
                ));
            }
            let entry = &rule.entries[j];
            match &entry.exes {
                Some(l) => {
                    if strings_contain(l, &req_exe_name) {
                        proof {
                            assert(spec_entry_matches(rule.entries@[j as int], target));
                        }
                        if acc_contains_var(&acc, &rule.var) {
                            return Err(Error::DuplicateEnvironmentBinding { var: rule.var.clone() });
                        }
                        let ghost gacc: Seq<(Seq<char>, Seq<char>)> = pair_views(acc@);
                        acc.push(EnvPair { name: rule.var.clone(), value: entry.value.clone() });
                        proof {
                            assert(pair_views(acc@) =~= gacc.push((rule.var@, entry.value@)));
                            assert(spec_bind(gacc, rule.var@, rule.entries@[j as int].value@)
                                == Ok::<Seq<(Seq<char>, Seq<char>)>, Seq<char>>(pair_views(acc@)));
                            assert forall|a: int, b: int|
                                0 <= a < b < pair_views(acc@).len() implies pair_views(acc@)[a].0
                                != pair_views(acc@)[b].0 by {
                                if b < pair_views(acc@).len() - 1 {
                                } else {
                                    assert(!acc_has_key(gacc, rule.var@));
                                }
                            }
                        }
                    } else {
                        proof {
                            assert(!spec_entry_matches(rule.entries@[j as int], target));
                        }
                    }
                },
                None => {
                    proof {
                        assert(!spec_entry_matches(rule.entries@[j as int], target));
                    }
                },
            }
            j = j + 1;
        }
        proof {
            assert(rule.entries@.skip(m as int) =~= Seq::<EnvEntry>::empty());
            assert(spec_run_entries(pair_views(acc@), rule.var@, rule.entries@.skip(m as int), target)
                == Ok::<Seq<(Seq<char>, Seq<char>)>, Seq<char>>(pair_views(acc@)));
        }
        i = i + 1;
    }
    proof {
        assert(config.env@.skip(n as int) =~= Seq::<EnvRule>::empty());
        assert(total1 == Ok::<Seq<(Seq<char>, Seq<char>)>, Seq<char>>(pair_views(acc@)));
        assert(config.exe@.skip(0) =~= config.exe@);
    }
    let ghost total: Result<Seq<(Seq<char>, Seq<char>)>, Seq<char>> = spec_compose(
        target,
        *config,
    );
    let gn: usize = config.exe.len();
    let mut k: usize = 0;
    while k < gn
        invariant
            0 <= k <= gn,
            distinct_keys(pair_views(acc@)),
            spec_run_exe_rules(pair_views(acc@), config.exe@.skip(k as int), target) == total,
        decreases gn - k,
    {
        let rule = &config.exe[k];
        proof {
            assert(config.exe@.skip(k as int)[0] == config.exe@[k as int]);
            assert(config.exe@.skip(k as int).drop_first() =~= config.exe@.skip(k as int + 1));
        }
        if rule.exe.eq(&req_exe_name) {
            let m: usize = rule.bindings.len();
            let mut t: usize = 0;
            proof {
                assert(rule.bindings@.skip(0) =~= rule.bindings@);
            }
            while t < m
                invariant
                    0 <= t <= m,
                    distinct_keys(pair_views(acc@)),
                    (match spec_run_bindings(pair_views(acc@), rule.bindings@.skip(t as int)) {
                        Ok(a2) => spec_run_exe_rules(a2, config.exe@.skip(k as int + 1), target),
                        Err(v) => Err(v),
                    }) == total,
                decreases m - t,
            {
                proof {
                    assert(rule.bindings@.skip(t as int)[0] == rule.bindings@[t as int]);
                    assert(rule.bindings@.skip(t as int).drop_first() =~= rule.bindings@.skip(
                        t as int + 1,
                    ));
                }
                let b = &rule.bindings[t];
                if acc_contains_var(&acc, &b.var) {
                    return Err(Error::DuplicateEnvironmentBinding { var: b.var.clone() });
                }
                let val = b.value.to_bound_string();
                let ghost gacc: Seq<(Seq<char>, Seq<char>)> = pair_views(acc@);
                acc.push(EnvPair { name: b.var.clone(), value: val });
                proof {
                    assert(pair_views(acc@) =~= gacc.push(
                        (rule.bindings@[t as int].var@, spec_coerce(rule.bindings@[t as int].value)),
                    ));
                    assert forall|a: int, bi: int|
                        0 <= a < bi < pair_views(acc@).len() implies pair_views(acc@)[a].0
                        != pair_views(acc@)[bi].0 by {
                        if bi < pair_views(acc@).len() - 1 {
                        } else {
                            assert(!acc_has_key(gacc, rule.bindings@[t as int].var@));
                        }
                    }
                }
                t = t + 1;
            }
            proof {
                assert(rule.bindings@.skip(m as int) =~= Seq::<ExeBinding>::empty());
            }
        }
        k = k + 1;
    }
    proof {
        assert(config.exe@.skip(gn as int) =~= Seq::<ExeRule>::empty());
    }
    Ok(ResolvedEnv { pairs: acc })
}

/// The value bound to `k`, looking from the front.
pub open spec fn spec_lookup(bs: Seq<(Seq<char>, Seq<char>)>, k: Seq<char>) -> Option<Seq<char>>
    decreases bs.len(),
{
    if bs.len() == 0 {
        None
    } else if bs[0].0 == k {
        Some(bs[0].1)
    } else {
        spec_lookup(bs.drop_first(), k)
    }
}

impl ResolvedEnv {
    /// The number of bindings.
    pub fn len(&self) -> (n: usize)
        ensures
            n == self.bindings().len(),
    {
        self.pairs.len()
    }

    /// The value bound to `var`, if any.
    #[verifier::loop_isolation(false)]
    pub fn lookup(&self, var: &String) -> (r: Option<String>)
        ensures
            match r {
                Some(v) => spec_lookup(self.bindings(), var@) == Some(v@),
                None => spec_lookup(self.bindings(), var@) is None,
            },
    {
        let n: usize = self.pairs.len();
        let mut i: usize = 0;
        proof {
            assert(self.bindings().skip(0) =~= self.bindings());
        }
        while i < n
            invariant
                0 <= i <= n,
                spec_lookup(self.bindings().skip(i as int), var@) == spec_lookup(
                    self.bindings(),
                    var@,
                ),
            decreases n - i,
        {
            proof {
                assert(self.bindings().skip(i as int)[0] == self.bindings()[i as int]);
                assert(self.bindings().skip(i as int).drop_first() =~= self.bindings().skip(
                    i as int + 1,
                ));
            }
            if self.pairs[i].name.eq(var) {
                return Some(self.pairs[i].value.clone());
            }
            i = i + 1;
        }
        proof {
            assert(self.bindings().skip(n as int) =~= Seq::<(Seq<char>, Seq<char>)>::empty());
        }
        None
    }
}

/// What the inherited environment keeps under the overlay: its bindings
/// whose variable the resolved mapping does not bind, in order.
pub open spec fn spec_kept(
    inh: Seq<(Seq<char>, Seq<char>)>,
    res: Seq<(Seq<char>, Seq<char>)>,
) -> Seq<(Seq<char>, Seq<char>)>
    decreases inh.len(),
{
    if inh.len() == 0 {
        Seq::empty()
    } else {
        let prev = spec_kept(inh.drop_last(), res);
        if acc_has_key(res, inh.last().0) {
            prev
        } else {
            prev.push(inh.last())
        }
    }
}

/// The environment the spawned process receives: with `clear` set, the
/// resolved mapping exactly; otherwise the inherited environment overlaid
/// by the resolved mapping, resolved values winning on collision.
pub open spec fn spec_spawn_env(
    inh: Seq<(Seq<char>, Seq<char>)>,
    res: Seq<(Seq<char>, Seq<char>)>,
    clear: bool,
) -> Seq<(Seq<char>, Seq<char>)> {
    if clear {
        res
    } else {
        spec_kept(inh, res) + res
    }
}

proof fn lemma_kept_props(inh: Seq<(Seq<char>, Seq<char>)>, res: Seq<(Seq<char>, Seq<char>)>)
    requires
        distinct_keys(inh),
    ensures
        distinct_keys(spec_kept(inh, res)),
        forall|k: int|
            0 <= k < spec_kept(inh, res).len() ==> !acc_has_key(
                res,
                (#[trigger] spec_kept(inh, res)[k]).0,
            ),
        forall|k: int|
            0 <= k < spec_kept(inh, res).len() ==> exists|i: int|
                0 <= i < inh.len() && #[trigger] spec_kept(inh, res)[k] == inh[i],
    decreases inh.len(),
{
    if inh.len() == 0 {
    } else {
        let front = inh.drop_last();
        assert(distinct_keys(front)) by {
            assert(forall|i: int| 0 <= i < front.len() ==> front[i] == inh[i]);
        }
        lemma_kept_props(front, res);
        let prev = spec_kept(front, res);
        let kept = spec_kept(inh, res);
        assert(forall|i: int| 0 <= i < front.len() ==> front[i] == inh[i]);
        if acc_has_key(res, inh.last().0) {
        } else {
            assert(kept == prev.push(inh.last()));
            assert forall|a: int, b: int| 0 <= a < b < kept.len() implies kept[a].0
                != kept[b].0 by {
                if b == kept.len() - 1 {
                    assert(kept[a] == prev[a]);
                    let i = choose|i: int| 0 <= i < front.len() && prev[a] == front[i];
                    assert(inh[i].0 != inh[inh.len() - 1].0);
                }
            }
            assert forall|k: int| 0 <= k < kept.len() implies exists|i: int|
                0 <= i < inh.len() && #[trigger] kept[k] == inh[i] by {
                if k < kept.len() - 1 {
                    let i = choose|i: int| 0 <= i < front.len() && prev[k] == front[i];
                    assert(kept[k] == inh[i]);
                } else {
                    assert(kept[k] == inh[inh.len() - 1]);
                }
            }
        }
    }
}

/// Appends a copy of every binding of `src` to `dst`.
fn append_pairs(dst: &mut Vec<EnvPair>, src: &Vec<EnvPair>)
    ensures
        pair_views(final(dst)@) == pair_views(old(dst)@) + pair_views(src@),
{
    let n: usize = src.len();
    let mut i: usize = 0;
    proof {
        assert(pair_views(src@).take(0) =~= Seq::<(Seq<char>, Seq<char>)>::empty());
        assert(pair_views(dst@) + pair_views(src@).take(0) =~= pair_views(dst@));
    }
    while i < n
        invariant
            n == src@.len(),
            0 <= i <= n,
            pair_views(dst@) =~= pair_views(old(dst)@) + pair_views(src@).take(i as int),
        decreases n - i,
    {
        let ghost gd: Seq<EnvPair> = dst@;
        dst.push(EnvPair { name: src[i].name.clone(), value: src[i].value.clone() });
        proof {
            assert(pair_views(dst@) =~= pair_views(gd).push(pair_views(src@)[i as int]));
            assert(pair_views(src@).take(i as int + 1) =~= pair_views(src@).take(i as int).push(
                pair_views(src@)[i as int],
            ));
        }
        i = i + 1;
    }
    proof {
        assert(pair_views(src@).take(n as int) =~= pair_views(src@));
    }
}

/// The environment handed to the launcher.  With `clear` set it is the
/// resolved mapping exactly — nothing inherited survives; otherwise it is
/// the inherited environment overlaid by the resolved mapping, the
/// resolved value winning wherever both bind a variable.
pub fn spawn_environment(inherited: &Vec<EnvPair>, resolved: &ResolvedEnv, clear: bool) -> (r:
    ResolvedEnv)
    requires
        distinct_keys(pair_views(inherited@)),
        resolved.wf(),
    ensures
        r.bindings() == spec_spawn_env(pair_views(inherited@), resolved.bindings(), clear),
        clear ==> r.bindings() == resolved.bindings(),
        r.wf(),
{
    let ghost inhv: Seq<(Seq<char>, Seq<char>)> = pair_views(inherited@);
    let ghost resv: Seq<(Seq<char>, Seq<char>)> = resolved.bindings();
    let mut out: Vec<EnvPair> = Vec::new();
    if clear {
        append_pairs(&mut out, &resolved.pairs);
        proof {
            assert(pair_views(out@) =~= resv);
        }
        ResolvedEnv { pairs: out }
    } else {
        let n: usize = inherited.len();
        let mut i: usize = 0;
        proof {
            assert(inhv.take(0) =~= Seq::<(Seq<char>, Seq<char>)>::empty());
            assert(pair_views(out@) =~= spec_kept(inhv.take(0), resv));
        }
        while i < n
            invariant
                n == inherited@.len(),
                0 <= i <= n,
                inhv == pair_views(inherited@),
                resv == resolved.bindings(),
                pair_views(out@) =~= spec_kept(inhv.take(i as int), resv),
            decreases n - i,
        {
            let ghost gout: Seq<EnvPair> = out@;
            proof {
                assert(inhv.take(i as int + 1).drop_last() =~= inhv.take(i as int));
                assert(inhv.take(i as int + 1).last() == inhv[i as int]);
                assert(inhv[i as int] == (inherited@[i as int].name@, inherited@[i as int].value@));
            }
            if !acc_contains_var(&resolved.pairs, &inherited[i].name) {
                out.push(
                    EnvPair { name: inherited[i].name.clone(), value: inherited[i].value.clone() },
                );
                proof {
                    assert(pair_views(out@) =~= pair_views(gout).push(inhv[i as int]));
                }
            }
            i = i + 1;
        }
        proof {
            assert(inhv.take(n as int) =~= inhv);
        }
        let ghost kept: Seq<(Seq<char>, Seq<char>)> = spec_kept(inhv, resv);
        append_pairs(&mut out, &resolved.pairs);
        proof {
            lemma_kept_props(inhv, resv);
            assert(pair_views(out@) =~= kept + resv);
            assert forall|a: int, b: int|
                0 <= a < b < (kept + resv).len() implies (kept + resv)[a].0 != (kept
                + resv)[b].0 by {
                if b < kept.len() {
                } else if a < kept.len() {
                    assert((kept + resv)[a] == kept[a]);
                    assert((kept + resv)[b] == resv[b - kept.len()]);
                    if kept[a].0 == resv[b - kept.len()].0 {
                        assert(acc_has_key(resv, kept[a].0));
                    }
                } else {
                    assert((kept + resv)[a] == resv[a - kept.len()]);
                    assert((kept + resv)[b] == resv[b - kept.len()]);
                }
            }
        }
        ResolvedEnv { pairs: out }
    }
}

} // verus!
