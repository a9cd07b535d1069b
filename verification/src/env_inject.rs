//! Environment variables handed to agent processes.

use vstd::prelude::*;
use crate::str_map::{entries_map, keys_distinct, lemma_entries_map, KeyMap, StrMap};
use crate::text::{ascii_upper_seq, contains, contains_exec, lex_lt, lemma_lex_total, str_lt, to_ascii_uppercase};

verus! {

/// Variable settings: global, per model and per task.
#[derive(Debug)]
pub struct EnvConfig {
    pub global_vars: StrMap,
    pub per_model_vars: KeyMap<StrMap>,
    pub per_task_vars: KeyMap<StrMap>,
    pub inherit_env: bool,
    pub redact_patterns: Vec<String>,
}

impl Default for EnvConfig {
    fn default() -> (res: Self)
        ensures
            res.global_vars@ == Map::<Seq<char>, Seq<char>>::empty(),
            res.per_model_vars@ == Map::<Seq<char>, Map<Seq<char>, Seq<char>>>::empty(),
            res.per_task_vars@ == Map::<Seq<char>, Map<Seq<char>, Seq<char>>>::empty(),
            res.inherit_env,
            res.redact_patterns@.len() == 0,
    {
        EnvConfig {
            global_vars: StrMap::new(),
            per_model_vars: KeyMap::new(),
            per_task_vars: KeyMap::new(),
            inherit_env: true,
            redact_patterns: Vec::new(),
        }
    }
}

/// Values of the variables that describe the run itself.
#[derive(Debug, Clone)]
pub struct BuiltinVars {
    /// Repository root (`OTHALA_REPO_ROOT`, or the working directory, or ".").
    pub repo_root: String,
    /// Session id (`OTHALA_SESSION_ID`, or "unknown-session").
    pub session_id: String,
    /// Version of this build.
    pub version: String,
}

/// Builds per-agent environments.
#[derive(Debug)]
pub struct EnvInjector {
    pub config: EnvConfig,
}

/// Variables of `m` at `key`, or none.
pub open spec fn vars_at(
    m: Map<Seq<char>, Map<Seq<char>, Seq<char>>>,
    key: Seq<char>,
) -> Map<Seq<char>, Seq<char>> {
    if m.contains_key(key) {
        m[key]
    } else {
        Map::empty()
    }
}

/// The environment of a task run by a model: global variables, overridden by
/// the model's, overridden by the task's, overridden by the built-in ones.
pub open spec fn spec_build_env(
    c: EnvConfig,
    task: Seq<char>,
    model: Seq<char>,
    b: BuiltinVars,
) -> Map<Seq<char>, Seq<char>> {
    c.global_vars@.union_prefer_right(vars_at(c.per_model_vars@, model)).union_prefer_right(
        vars_at(c.per_task_vars@, task),
    ).insert("OTHALA_TASK_ID"@, task).insert("OTHALA_MODEL"@, model).insert(
        "OTHALA_REPO_ROOT"@,
        b.repo_root@,
    ).insert("OTHALA_SESSION_ID"@, b.session_id@).insert("OTHALA_VERSION"@, b.version@)
}

/// A key is redacted when its upper-cased form contains an upper-cased pattern.
pub open spec fn spec_should_redact(patterns: Seq<Seq<char>>, key: Seq<char>) -> bool {
    exists|i: int|
        0 <= i < patterns.len() && contains(ascii_upper_seq(key), ascii_upper_seq(#[trigger] patterns[i]))
}

/// The shown value: "***" for redacted keys, else the value.
pub open spec fn spec_redact(patterns: Seq<Seq<char>>, key: Seq<char>, value: Seq<char>) -> Seq<char> {
    if spec_should_redact(patterns, key) {
        "***"@
    } else {
        value
    }
}

/// Keys strictly increase along `v`.
pub open spec fn sorted_by_key(v: Seq<(Seq<char>, Seq<char>)>) -> bool {
    forall|i: int| 0 <= i < v.len() - 1 ==> lex_lt(#[trigger] v[i].0, v[i + 1].0)
}

/// Views a list of string pairs.
pub open spec fn pairs_view(v: Seq<(String, String)>) -> Seq<(Seq<char>, Seq<char>)> {
    v.map_values(|p: (String, String)| (p.0@, p.1@))
}

fn lookup_vars(m: &KeyMap<StrMap>, key: &str) -> (res: StrMap)
    ensures
        res@ == vars_at(m@, key@),
{
    match m.get(key) {
        Some(vars) => vars.duplicate(),
        None => StrMap::new(),
    }
}

impl EnvInjector {
    /// An injector for `config`.
    pub fn new(config: EnvConfig) -> (res: Self)
        ensures
            res.config == config,
    {
        EnvInjector { config }
    }

    /// The environment for `task_id` run by `model`.
    pub fn build_env(&self, task_id: &str, model: &str, builtins: &BuiltinVars) -> (res: StrMap)
        ensures
            res@ == spec_build_env(self.config, task_id@, model@, *builtins),
    {
        let mut result = StrMap::new();
        result.extend(&self.config.global_vars);
        let model_vars = lookup_vars(&self.config.per_model_vars, model);
        result.extend(&model_vars);
        let task_vars = lookup_vars(&self.config.per_task_vars, task_id);
        result.extend(&task_vars);
        result.insert(String::from_str("OTHALA_TASK_ID"), String::from_str(task_id));
        result.insert(String::from_str("OTHALA_MODEL"), String::from_str(model));
        result.insert(String::from_str("OTHALA_REPO_ROOT"), builtins.repo_root.clone());
        result.insert(String::from_str("OTHALA_SESSION_ID"), builtins.session_id.clone());
        result.insert(String::from_str("OTHALA_VERSION"), builtins.version.clone());
        assert(result@ =~= spec_build_env(self.config, task_id@, model@, *builtins));
        result
    }

    /// The environment as key/value pairs sorted by key.
    pub fn build_env_vec(&self, task_id: &str, model: &str, builtins: &BuiltinVars) -> (res: Vec<(String, String)>)
        ensures
            sorted_by_key(pairs_view(res@)),
            res@.len() == spec_build_env(self.config, task_id@, model@, *builtins).len(),
            forall|i: int| #![trigger res@[i]] 0 <= i < res@.len() ==> spec_build_env(
                self.config,
                task_id@,
                model@,
                *builtins,
            ).contains_key(res@[i].0@) && spec_build_env(self.config, task_id@, model@, *builtins)[res@[i].0@]
                == res@[i].1@,
    {
        let env = self.build_env(task_id, model, builtins);
        let entries = env.entries();
        proof {
            lemma_entries_map(entries@);
        }
        let mut out: Vec<(String, String)> = Vec::new();
        let mut i: usize = 0;
        while i < entries.len()
            invariant
                i <= entries@.len(),
                keys_distinct(entries@),
                entries_map(entries@) == env@,
                out@.len() == i,
                sorted_by_key(pairs_view(out@)),
                forall|a: int, b: int| 0 <= a < b < out@.len() ==> out@[a].0@ != out@[b].0@,
                forall|k: int| #![trigger out@[k]] 0 <= k < out@.len() ==> env@.contains_key(out@[k].0@)
                    && env@[out@[k].0@] == out@[k].1@ && exists|j: int| 0 <= j < i && entries@[j].0@ == out@[k].0@,
            decreases entries@.len() - i,
        {
            let key = entries[i].0.clone();
            let value = entries[i].1.clone();
            proof {
                lemma_entries_map(entries@);
            }
            assert(env@[entries@[i as int].0@] == entries@[i as int].1@);
            let mut p: usize = 0;
            while p < out.len() && str_lt(out[p].0.as_str(), key.as_str())
                invariant
                    p <= out@.len(),
                    forall|q: int| 0 <= q < p ==> lex_lt(#[trigger] out@[q].0@, key@),
                decreases out@.len() - p,
            {
                p = p + 1;
            }
            let ghost before = out@;
            assert forall|k: int| 0 <= k < before.len() implies before[k].0@ != key@ by {
                let j = choose|j: int| 0 <= j < i && entries@[j].0@ == before[k].0@;
                assert(entries@[j].0@ != entries@[i as int].0@);
            }
            proof {
                if p > 0 {
                    lemma_lex_total(before[p - 1].0@, key@);
                }
                if p < before.len() {
                    lemma_lex_total(before[p as int].0@, key@);
                }
            }
            out.insert(p, (key, value));
            assert forall|q: int| 0 <= q < out@.len() - 1 implies lex_lt(#[trigger] pairs_view(out@)[q].0, pairs_view(out@)[q + 1].0) by {
                if q < p - 1 {
                    assert(out@[q] == before[q] && out@[q + 1] == before[q + 1]);
                    assert(pairs_view(before)[q].0 == before[q].0@);
                } else if q == p - 1 {
                    assert(out@[q] == before[q]);
                } else if q == p {
                    assert(out@[q + 1] == before[q]);
                } else {
                    assert(out@[q] == before[q - 1] && out@[q + 1] == before[q]);
                    assert(pairs_view(before)[q - 1].0 == before[q - 1].0@);
                }
            }
            assert forall|a: int, b: int| 0 <= a < b < out@.len() implies out@[a].0@ != out@[b].0@ by {
                if a < p && b < p {
                    assert(out@[a] == before[a] && out@[b] == before[b]);
                } else if a < p && b == p {
                    assert(out@[a] == before[a]);
                } else if a < p {
                    assert(out@[a] == before[a] && out@[b] == before[b - 1]);
                } else if a == p {
                    assert(out@[b] == before[b - 1]);
                } else {
                    assert(out@[a] == before[a - 1] && out@[b] == before[b - 1]);
                }
            }
            assert forall|k: int| #![trigger out@[k]] 0 <= k < out@.len() implies env@.contains_key(out@[k].0@)
                && env@[out@[k].0@] == out@[k].1@ && exists|j: int| 0 <= j < i + 1 && entries@[j].0@ == out@[k].0@ by {
                if k < p {
                    assert(out@[k] == before[k]);
                } else if k == p {
                    assert(entries@[i as int].0@ == out@[k].0@);
                } else {
                    assert(out@[k] == before[k - 1]);
                }
            }
            i = i + 1;
        }
        out
    }

    /// The value to show for `key`: "***" when the key matches a redaction pattern.
    pub fn redact_value(&self, key: &str, value: &str) -> (res: String)
        ensures
            res@ == spec_redact(self.config.redact_patterns.deep_view(), key@, value@),
    {
        if self.should_redact_key(key) {
            String::from_str("***")
        } else {
            String::from_str(value)
        }
    }

    /// Whether `key` matches a redaction pattern, ignoring ASCII case.
    pub fn should_redact_key(&self, key: &str) -> (res: bool)
        ensures
            res == spec_should_redact(self.config.redact_patterns.deep_view(), key@),
    {
        let key_upper = to_ascii_uppercase(key);
        let pats = &self.config.redact_patterns;
        let mut i: usize = 0;
        while i < pats.len()
            invariant
                i <= pats@.len(),
                key_upper@ == ascii_upper_seq(key@),
                pats == &self.config.redact_patterns,
                forall|j: int| 0 <= j < i ==> !contains(ascii_upper_seq(key@), ascii_upper_seq(#[trigger] pats.deep_view()[j])),
            decreases pats@.len() - i,
        {
            let p = to_ascii_uppercase(pats[i].as_str());
            assert(pats.deep_view()[i as int] == pats@[i as int]@);
            if contains_exec(&key_upper, &p) {
                assert(contains(ascii_upper_seq(key@), ascii_upper_seq(pats.deep_view()[i as int])));
                assert(spec_should_redact(self.config.redact_patterns.deep_view(), key@));
                return true;
            }
            i = i + 1;
        }
        false
    }

    /// The environment with redacted values.
    pub fn redacted_env(&self, task_id: &str, model: &str, builtins: &BuiltinVars) -> (res: StrMap)
        ensures
            res@.dom() == spec_build_env(self.config, task_id@, model@, *builtins).dom(),
            forall|k: Seq<char>| #[trigger] res@.contains_key(k) ==> res@[k] == spec_redact(
                self.config.redact_patterns.deep_view(),
                k,
                spec_build_env(self.config, task_id@, model@, *builtins)[k],
            ),
    {
        let env = self.build_env(task_id, model, builtins);
        let entries = env.entries();
        proof {
            lemma_entries_map(entries@);
        }
        let ghost pats = self.config.redact_patterns.deep_view();
        let mut out = StrMap::new();
        let mut i: usize = 0;
        assert(out@ =~= Map::new(|k: Seq<char>| entries_map(entries@.take(0)).contains_key(k), |k: Seq<char>| spec_redact(pats, k, env@[k])));
        while i < entries.len()
            invariant
                i <= entries@.len(),
                keys_distinct(entries@),
                entries_map(entries@) == env@,
                pats == self.config.redact_patterns.deep_view(),
                out@ == Map::new(|k: Seq<char>| entries_map(entries@.take(i as int)).contains_key(k), |k: Seq<char>| spec_redact(pats, k, env@[k])),
            decreases entries@.len() - i,
        {
            proof {
                lemma_entries_map(entries@);
            }
            let red = self.redact_value(entries[i].0.as_str(), entries[i].1.as_str());
            out.insert(entries[i].0.clone(), red);
            proof {
                assert(entries@.take(i + 1).drop_last() =~= entries@.take(i as int));
                assert(env@[entries@[i as int].0@] == entries@[i as int].1@);
                assert(out@ =~= Map::new(|k: Seq<char>| entries_map(entries@.take(i + 1)).contains_key(k), |k: Seq<char>| spec_redact(pats, k, env@[k])));
            }
            i = i + 1;
        }
        proof {
            assert(entries@.take(i as int) =~= entries@);
            assert(out@.dom() =~= env@.dom());
        }
        out
    }

    /// The system environment (when inherited) overridden by `custom`.
    pub fn merge_with_system(&self, system_env: &StrMap, custom: &StrMap) -> (res: StrMap)
        ensures
            res@ == if self.config.inherit_env {
                system_env@.union_prefer_right(custom@)
            } else {
                custom@
            },
    {
        let mut merged = if self.config.inherit_env {
            system_env.duplicate()
        } else {
            StrMap::new()
        };
        merged.extend(custom);
        assert(merged@ =~= if self.config.inherit_env {
            system_env@.union_prefer_right(custom@)
        } else {
            custom@
        });
        merged
    }

    /// Whether any variable is set for `task_id`.
    pub fn has_task_env(&self, task_id: &str) -> (res: bool)
        ensures
            res == self.config.per_task_vars@.contains_key(task_id@),
    {
        self.config.per_task_vars.contains_key(task_id)
    }

    /// Sets one variable for `task_id`.
    pub fn set_task_var(&mut self, task_id: &str, key: &str, value: &str)
        ensures
            final(self).config.per_task_vars@ == old(self).config.per_task_vars@.insert(
                task_id@,
                vars_at(old(self).config.per_task_vars@, task_id@).insert(key@, value@),
            ),
            final(self).config.global_vars@ == old(self).config.global_vars@,
            final(self).config.per_model_vars@ == old(self).config.per_model_vars@,
            final(self).config.inherit_env == old(self).config.inherit_env,
            final(self).config.redact_patterns@ == old(self).config.redact_patterns@,
    {
        let mut vars = lookup_vars(&self.config.per_task_vars, task_id);
        vars.insert(String::from_str(key), String::from_str(value));
        self.config.per_task_vars.insert(String::from_str(task_id), vars);
    }
}

impl Default for EnvInjector {
    fn default() -> (res: Self)
        ensures
            res.config.global_vars@ == Map::<Seq<char>, Seq<char>>::empty(),
            res.config.inherit_env,
    {
        EnvInjector::new(EnvConfig::default())
    }
}

} // verus!
