//! The validated in-memory form of the declarative config.

use vstd::prelude::*;
use crate::strutil::spec_i64_dec;
use crate::strutil::i64_to_dec_string;

verus! {

/// A literal value attached to a variable under the `exe` section.
/// A native string binds verbatim; every other literal binds its
/// canonical text.
#[derive(Clone, Debug)]
pub enum ConfigValue {
    /// A native string value.
    Str(String),
    /// An integer value.
    Int(i64),
    /// A boolean value.
    Bool(bool),
    /// Any other literal (a non-integer number, a list, a nested table),
    /// carried as its canonical text.
    Other(String),
}

/// The string a value binds: a string verbatim, any other literal its
/// canonical text.
pub open spec fn spec_coerce(v: ConfigValue) -> Seq<char> {
    match v {
        ConfigValue::Str(s) => s@,
        ConfigValue::Int(i) => spec_i64_dec(i as int),
        ConfigValue::Bool(b) => if b {
            "true"@
        } else {
            "false"@
        },
        ConfigValue::Other(t) => t@,
    }
}

impl ConfigValue {
    /// Renders the string this value binds.
    pub fn to_bound_string(&self) -> (r: String)
        ensures
            r@ == spec_coerce(*self),
    {
        match self {
            ConfigValue::Str(s) => s.clone(),
            ConfigValue::Int(i) => i64_to_dec_string(*i),
            ConfigValue::Bool(b) => {
                if *b {
                    String::from_str("true")
                } else {
                    String::from_str("false")
                }
            },
            ConfigValue::Other(t) => t.clone(),
        }
    }
}

/// One value entry under a variable of the `env` section: the literal value
/// (a table key, hence text) and the executables that receive it.
/// `exes` is `None` when the entry did not come as a list of names —
/// the shape `validate` rejects.
#[derive(Clone, Debug)]
pub struct EnvEntry {
    /// The value this entry binds.
    pub value: String,
    /// The names of the executables receiving the value, or `None` for an
    /// entry of the wrong shape.
    pub exes: Option<Vec<String>>,
}

/// One variable of the `env` section with its value entries, in file order.
#[derive(Clone, Debug)]
pub struct EnvRule {
    /// The variable this rule binds.
    pub var: String,
    /// Its value entries, in order.
    pub entries: Vec<EnvEntry>,
}

/// One `variable = value` pair under an executable of the `exe` section.
#[derive(Clone, Debug)]
pub struct ExeBinding {
    /// The variable to bind.
    pub var: String,
    /// The literal it binds.
    pub value: ConfigValue,
}

/// One executable of the `exe` section with its bindings, in file order.
#[derive(Clone, Debug)]
pub struct ExeRule {
    /// The executable these bindings concern.
    pub exe: String,
    /// Its bindings, in order.
    pub bindings: Vec<ExeBinding>,
}

/// The declarative config: a search-path prefix, the two rule sections,
/// and the clear/inherit switch.
#[derive(Clone, Debug)]
pub struct BagexConfig {
    /// Directories placed before the inherited search path, in file order.
    pub path: Vec<String>,
    /// The `env` section: variable-keyed rules.
    pub env: Vec<EnvRule>,
    /// The `exe` section: executable-keyed rules.
    pub exe: Vec<ExeRule>,
    /// Whether the spawned process starts from an empty environment.
    pub clear_env: Option<bool>,
}

/// Whether every value entry of this rule lists executable names.
pub open spec fn spec_env_rule_valid(r: EnvRule) -> bool {
    forall|j: int| 0 <= j < r.entries@.len() ==> (#[trigger] r.entries@[j]).exes is Some
}

impl BagexConfig {
    /// Whether the whole `env` section is well formed: every value entry
    /// under every variable lists executable names.
    pub open spec fn spec_env_valid(self) -> bool {
        forall|i: int| 0 <= i < self.env@.len() ==> spec_env_rule_valid(#[trigger] self.env@[i])
    }

    /// Inspects the `env` section: every value entry must list executable
    /// names.  One entry of another shape invalidates the whole config.
    #[verifier::loop_isolation(false)]
    pub fn validate(self) -> (r: bool)
        ensures
            r == self.spec_env_valid(),
    {
        let n: usize = self.env.len();
        let mut i: usize = 0;
        while i < n
            invariant
                n == self.env@.len(),
                0 <= i <= n,
                forall|k: int| 0 <= k < i ==> spec_env_rule_valid(#[trigger] self.env@[k]),
            decreases n - i,
        {
            let rule = &self.env[i];
            let m: usize = rule.entries.len();
            let mut j: usize = 0;
            while j < m
                invariant
                    m == rule.entries@.len(),
                    0 <= j <= m,
                    forall|k: int| 0 <= k < j ==> (#[trigger] rule.entries@[k]).exes is Some,
                decreases m - j,
            {
                if rule.entries[j].exes.is_none() {
                    proof {
                        assert(!spec_env_rule_valid(self.env@[i as int]));
                    }
                    return false;
                }
                j = j + 1;
            }
            i = i + 1;
        }
        true
    }
}

impl Default for BagexConfig {
    /// An empty config: no extra directories, no rules, inherit the
    /// environment.
    fn default() -> (r: Self)
        ensures
            r.path@.len() == 0,
            r.env@.len() == 0,
            r.exe@.len() == 0,
            r.clear_env is None,
    {
        BagexConfig { path: Vec::new(), env: Vec::new(), exe: Vec::new(), clear_env: None }
    }
}

} // verus!
