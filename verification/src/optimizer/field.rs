//! The prompt fields of a configuration that an optimizer can rewrite.
use vstd::prelude::*;
use crate::config::schema::{
    AuraConfig, OrchestrationConfig, PROMPT_FIELD_PREFIX, prompt_key, prompt_value, prompt_key_of,
    all_worker_names, lemma_has_key_contains, names_not_in,
};
use crate::keyed::{lookup, has_key, key_seq, lemma_key_pos_unique, keys_unique};
use crate::prompts::{describe_prompt, spec_describe_prompt};
use crate::text::{owned, concat3, strip_prefix_or_self, is_prefix};

verus! {

/// Identifies a prompt field in the config that can be targeted for optimization.
#[derive(Debug, PartialEq, Eq, Hash)]
pub enum OptimizableField {
    /// The agent's top-level system prompt (`agent.system_prompt`).
    AgentSystemPrompt,
    /// An orchestration prompt template, identified by its dotted config path.
    OrchestrationPrompt(String),
    /// A worker's preamble, identified by worker name.
    WorkerPreamble(String),
}

impl Clone for OptimizableField {
    fn clone(&self) -> (r: Self)
        ensures
            r == *self,
    {
        match self {
            OptimizableField::AgentSystemPrompt => OptimizableField::AgentSystemPrompt,
            OptimizableField::OrchestrationPrompt(p) => OptimizableField::OrchestrationPrompt(
                p.clone(),
            ),
            OptimizableField::WorkerPreamble(n) => OptimizableField::WorkerPreamble(n.clone()),
        }
    }
}

/// The dotted config path of `f`.
pub open spec fn spec_field_path(f: OptimizableField) -> Seq<char> {
    match f {
        OptimizableField::AgentSystemPrompt => "agent.system_prompt"@,
        OptimizableField::OrchestrationPrompt(p) => p@,
        OptimizableField::WorkerPreamble(n) => "orchestration.workers."@ + n@ + ".preamble"@,
    }
}

/// The preamble of the worker `name`: from `workers`, else from `worker`.
pub open spec fn worker_preamble(o: OrchestrationConfig, name: Seq<char>) -> Option<Seq<char>> {
    match lookup(o.workers@, name) {
        Some(w) => Some(w.preamble@),
        None => match o.worker {
            Some(m) => match lookup(m@, name) {
                Some(w) => Some(w.preamble@),
                None => None,
            },
            None => None,
        },
    }
}

/// The current text of `f` in `c`, if `c` has that field.
pub open spec fn spec_get_value(f: OptimizableField, c: AuraConfig) -> Option<Seq<char>> {
    match f {
        OptimizableField::AgentSystemPrompt => Some(c.agent.system_prompt@),
        OptimizableField::OrchestrationPrompt(p) => match c.orchestration {
            Some(o) => prompt_value(o.prompts@, prompt_key(p@)),
            None => None,
        },
        OptimizableField::WorkerPreamble(n) => match c.orchestration {
            Some(o) => worker_preamble(o, n@),
            None => None,
        },
    }
}

/// Setting `f` in `c` stores the new text: always for the system prompt; for
/// an orchestration prompt when `c` has an orchestration section (a new name
/// is added); for a worker preamble when the worker exists.
pub open spec fn spec_can_set(f: OptimizableField, c: AuraConfig) -> bool {
    match f {
        OptimizableField::AgentSystemPrompt => true,
        OptimizableField::OrchestrationPrompt(_) => c.orchestration is Some,
        OptimizableField::WorkerPreamble(_) => spec_get_value(f, c) is Some,
    }
}

/// `f` and `g` name the same stored text.
pub open spec fn same_target(f: OptimizableField, g: OptimizableField) -> bool {
    match (f, g) {
        (OptimizableField::AgentSystemPrompt, OptimizableField::AgentSystemPrompt) => true,
        (OptimizableField::OrchestrationPrompt(p), OptimizableField::OrchestrationPrompt(q)) =>
            prompt_key(p@) == prompt_key(q@),
        (OptimizableField::WorkerPreamble(n), OptimizableField::WorkerPreamble(m)) => n@ == m@,
        _ => false,
    }
}

/// `b` holds the same settings as `a` apart from prompt texts: the same
/// model, tools, agent parameters, orchestration parameters, worker and
/// prompt names (`b` may have added prompt names).
pub open spec fn same_settings(a: AuraConfig, b: AuraConfig) -> bool {
    &&& b.llm == a.llm
    &&& b.mcp == a.mcp
    &&& b.vector_stores == a.vector_stores
    &&& b.tools == a.tools
    &&& b.agent.name == a.agent.name
    &&& b.agent.temperature_bits == a.agent.temperature_bits
    &&& b.agent.max_tokens == a.agent.max_tokens
    &&& b.agent.turn_depth == a.agent.turn_depth
    &&& b.agent.mcp_filter == a.agent.mcp_filter
    &&& (b.orchestration is Some <==> a.orchestration is Some)
    &&& (a.orchestration matches Some(ao) ==> (b.orchestration matches Some(bo) && bo.enabled
        == ao.enabled && bo.max_planning_cycles == ao.max_planning_cycles
        && bo.quality_threshold_bits == ao.quality_threshold_bits && key_seq(bo.workers@)
        == key_seq(ao.workers@) && (bo.worker is Some <==> ao.worker is Some) && (ao.worker matches Some(aw) ==> (bo.worker matches Some(bw) && key_seq(bw@) == key_seq(aw@)))))
}

/// The fields that `all_fields` lists for `c`: the system prompt, then, when
/// orchestration is enabled, every orchestration prompt and every worker preamble.
pub open spec fn lists_all_fields(c: AuraConfig, r: Seq<OptimizableField>) -> bool {
    &&& r.len() >= 1
    &&& r[0] is AgentSystemPrompt
    &&& match c.orchestration {
        Some(o) if o.enabled => {
            let n = o.prompts@.len();
            let names = all_worker_names(o);
            &&& r.len() == 1 + n + names.len()
            &&& forall|i: int|
                0 <= i < n ==> (#[trigger] r[1 + i] matches OptimizableField::OrchestrationPrompt(p)
                    && p@ == PROMPT_FIELD_PREFIX@ + o.prompts@[i].0@)
            &&& forall|j: int|
                0 <= j < names.len() ==> (#[trigger] r[1 + n + j] matches OptimizableField::WorkerPreamble(w)
                    && w@ == names[j])
        },
        _ => r.len() == 1,
    }
}

/// The description of `f` in `c`: for an orchestration prompt, the first
/// heading of its text (or its name), or its path when `c` lacks it.
pub open spec fn spec_description_for(f: OptimizableField, c: AuraConfig) -> Seq<char> {
    match f {
        OptimizableField::AgentSystemPrompt => "The agent's main system prompt"@,
        OptimizableField::OrchestrationPrompt(p) => match spec_get_value(f, c) {
            Some(content) => spec_describe_prompt(prompt_key(p@), content),
            None => p@,
        },
        OptimizableField::WorkerPreamble(n) => "Worker preamble for '"@ + n@ + "'"@,
    }
}

/// The static description of `f`.
pub open spec fn spec_description(f: OptimizableField) -> Seq<char> {
    match f {
        OptimizableField::AgentSystemPrompt => "The agent's main system prompt"@,
        OptimizableField::OrchestrationPrompt(_) => "Orchestration prompt template"@,
        OptimizableField::WorkerPreamble(_) => "A specialized worker agent preamble"@,
    }
}

impl OptimizableField {
    /// Returns the dotted config path for this field.
    pub fn field_path(&self) -> (r: String)
        ensures
            r@ == spec_field_path(*self),
    {
        match self {
            OptimizableField::AgentSystemPrompt => owned("agent.system_prompt"),
            OptimizableField::OrchestrationPrompt(name) => name.clone(),
            OptimizableField::WorkerPreamble(name) => concat3(
                "orchestration.workers.",
                name.as_str(),
                ".preamble",
            ),
        }
    }

    /// Reads the current value of this field from the config.
    pub fn get_value<'a>(&self, config: &'a AuraConfig) -> (r: Option<&'a str>)
        ensures
            match r {
                Some(v) => spec_get_value(*self, *config) == Some(v@),
                None => spec_get_value(*self, *config) is None,
            },
    {
        match self {
            OptimizableField::AgentSystemPrompt => Some(config.agent.system_prompt.as_str()),
            OptimizableField::OrchestrationPrompt(path) => match &config.orchestration {
                Some(o) => o.prompts.get_field(path.as_str()),
                None => None,
            },
            OptimizableField::WorkerPreamble(name) => match &config.orchestration {
                Some(o) => match o.workers.get(name.as_str()) {
                    Some(w) => Some(w.preamble.as_str()),
                    None => match &o.worker {
                        Some(m) => match m.get(name.as_str()) {
                            Some(w) => Some(w.preamble.as_str()),
                            None => None,
                        },
                        None => None,
                    },
                },
                None => None,
            },
        }
    }

    /// Sets the value of this field on the config. Returns true if successful;
    /// on false the config is unchanged.
    pub fn set_value(&self, config: &mut AuraConfig, value: String) -> (r: bool)
        ensures
            r == spec_can_set(*self, *old(config)),
            !r ==> *final(config) == *old(config),
            spec_can_set(*self, *old(config)) ==> spec_get_value(*self, *final(config)) == Some(
                value@,
            ),
            forall|g: OptimizableField|
                !same_target(g, *self) || !spec_can_set(*self, *old(config))
                    ==> #[trigger] spec_get_value(g, *final(config)) == spec_get_value(
                    g,
                    *old(config),
                ),
            same_settings(*old(config), *final(config)),
    {
        match self {
            OptimizableField::AgentSystemPrompt => {
                config.agent.system_prompt = value;
                true
            },
            OptimizableField::OrchestrationPrompt(path) => {
                let ghost old_config = *config;
                match &mut config.orchestration {
                    Some(orch) => {
                        let r = orch.prompts.set_field(path.as_str(), value);
                        r
                    },
                    None => false,
                }
            },
            OptimizableField::WorkerPreamble(name) => {
                match &mut config.orchestration {
                    Some(orch) => {
                        if orch.workers.contains_key(name.as_str()) {
                            orch.workers.set_preamble(name.as_str(), value)
                        } else {
                            match &mut orch.worker {
                                Some(m) => if m.contains_key(name.as_str()) {
                                    m.set_preamble(name.as_str(), value)
                                } else {
                                    false
                                },
                                None => false,
                            }
                        }
                    },
                    None => false,
                }
            },
        }
    }

    /// A human-readable description of this field in `config`; for an
    /// orchestration prompt it is derived from the prompt's first heading.
    pub fn description_for(&self, config: &AuraConfig) -> (r: String)
        ensures
            r@ == spec_description_for(*self, *config),
    {
        match self {
            OptimizableField::AgentSystemPrompt => owned("The agent's main system prompt"),
            OptimizableField::OrchestrationPrompt(path) => match self.get_value(config) {
                Some(content) => {
                    let name = prompt_key_of(path.as_str());
                    describe_prompt(name.as_str(), content)
                },
                None => path.clone(),
            },
            OptimizableField::WorkerPreamble(name) => concat3(
                "Worker preamble for '",
                name.as_str(),
                "'",
            ),
        }
    }

    /// Returns a static description for known prompt fields, or a generic one.
    pub fn description(&self) -> (r: &str)
        ensures
            r@ == spec_description(*self),
    {
        match self {
            OptimizableField::AgentSystemPrompt => "The agent's main system prompt",
            OptimizableField::OrchestrationPrompt(_) => "Orchestration prompt template",
            OptimizableField::WorkerPreamble(_) => "A specialized worker agent preamble",
        }
    }

    /// Returns true if this is a template prompt (contains %%VAR%% or {{var}} placeholders).
    pub fn is_template(&self) -> (r: bool)
        ensures
            r == !(*self is AgentSystemPrompt),
    {
        match self {
            OptimizableField::AgentSystemPrompt => false,
            _ => true,
        }
    }

    /// Returns all optimizable fields present in the given config.
    pub fn all_fields(config: &AuraConfig) -> (r: Vec<OptimizableField>)
        ensures
            lists_all_fields(*config, r@),
            forall|i: int| 0 <= i < r@.len() ==> (#[trigger] spec_get_value(r@[i], *config)) is Some,
            forall|i: int, j: int| 0 <= i < j < r@.len() ==> r@[i] != r@[j],
    {
        let mut fields: Vec<OptimizableField> = Vec::new();
        fields.push(OptimizableField::AgentSystemPrompt);
        match &config.orchestration {
            Some(orch) => {
                orch.prompts.names_are_unique();
                if orch.enabled {
                    let prompts = orch.prompts.fields();
                    let n = prompts.len();
                    let mut i: usize = 0;
                    while i < n
                        invariant
                            n == prompts@.len(),
                            n == orch.prompts@.len(),
                            i <= n,
                            fields@.len() == 1 + i,
                            fields@[0] is AgentSystemPrompt,
                            forall|j: int|
                                0 <= j < prompts@.len() ==> #[trigger] prompts@[j].0@
                                    == PROMPT_FIELD_PREFIX@ + orch.prompts@[j].0@,
                            forall|j: int|
                                0 <= j < i ==> (#[trigger] fields@[1 + j] matches OptimizableField::OrchestrationPrompt(p)
                                    && p@ == PROMPT_FIELD_PREFIX@ + orch.prompts@[j].0@),
                        decreases n - i,
                    {
                        let path = prompts[i].0.clone();
                        fields.push(OptimizableField::OrchestrationPrompt(path));
                        i = i + 1;
                    }
                    let names = orch.all_worker_names();
                    let m = names.len();
                    let mut j: usize = 0;
                    while j < m
                        invariant
                            m == names@.len(),
                            names@.map_values(|s: String| s@) == all_worker_names(*orch),
                            n == orch.prompts@.len(),
                            j <= m,
                            fields@.len() == 1 + n + j,
                            fields@[0] is AgentSystemPrompt,
                            forall|k: int|
                                0 <= k < n ==> (#[trigger] fields@[1 + k] matches OptimizableField::OrchestrationPrompt(p)
                                    && p@ == PROMPT_FIELD_PREFIX@ + orch.prompts@[k].0@),
                            forall|k: int|
                                0 <= k < j ==> (#[trigger] fields@[1 + n + k] matches OptimizableField::WorkerPreamble(w)
                                    && w@ == all_worker_names(*orch)[k]),
                        decreases m - j,
                    {
                        let name = names[j].clone();
                        assert(names@[j as int]@ == all_worker_names(*orch)[j as int]);
                        fields.push(OptimizableField::WorkerPreamble(name));
                        j = j + 1;
                    }
                }
            },
            None => {},
        }
        proof {
            lemma_all_fields_readable(*config, fields@);
            lemma_all_fields_distinct(*config, fields@);
        }
        fields
    }
}

/// Whether any of `fields` is an orchestration prompt or a worker preamble.
pub fn targets_orchestration(fields: &Vec<OptimizableField>) -> (r: bool)
    ensures
        r == exists|i: int| 0 <= i < fields@.len() && !(#[trigger] fields@[i] is AgentSystemPrompt),
{
    let mut i: usize = 0;
    while i < fields.len()
        invariant
            i <= fields@.len(),
            forall|j: int| 0 <= j < i ==> #[trigger] fields@[j] is AgentSystemPrompt,
        decreases fields.len() - i,
    {
        match &fields[i] {
            OptimizableField::AgentSystemPrompt => {},
            _ => {
                return true;
            },
        }
        i = i + 1;
    }
    false
}

/// Keeping the settings is transitive.
pub proof fn lemma_same_settings_trans(a: AuraConfig, b: AuraConfig, c: AuraConfig)
    requires
        same_settings(a, b),
        same_settings(b, c),
    ensures
        same_settings(a, c),
{
}

/// Fields that name the same stored text read the same text.
pub proof fn lemma_same_target_value(f: OptimizableField, g: OptimizableField, c: AuraConfig)
    requires
        same_target(f, g),
    ensures
        spec_get_value(f, c) == spec_get_value(g, c),
{
}

/// No field is listed twice.
proof fn lemma_all_fields_distinct(c: AuraConfig, r: Seq<OptimizableField>)
    requires
        lists_all_fields(c, r),
        c.orchestration matches Some(o) ==> (keys_unique(o.prompts@) && (o.enabled
            ==> all_worker_names(o).no_duplicates())),
    ensures
        forall|i: int, j: int| 0 <= i < j < r.len() ==> r[i] != r[j],
{
    match c.orchestration {
        Some(o) if o.enabled => {
            let n = o.prompts@.len() as int;
            let names = all_worker_names(o);
            let pre = PROMPT_FIELD_PREFIX@;
            assert forall|i: int, j: int| 0 <= i < j < r.len() implies r[i] != r[j] by {
                if 1 <= i && j <= n {
                    let a = o.prompts@[i - 1].0@;
                    let b = o.prompts@[j - 1].0@;
                    let ii = i - 1;
                    let jj = j - 1;
                    assert(r[1 + ii] matches OptimizableField::OrchestrationPrompt(p) && p@ == pre + a);
                    assert(r[1 + jj] matches OptimizableField::OrchestrationPrompt(p) && p@ == pre + b);
                    assert(a != b);
                    if r[i] == r[j] {
                        assert((pre + a).subrange(pre.len() as int, (pre + a).len() as int) =~= a);
                        assert((pre + b).subrange(pre.len() as int, (pre + b).len() as int) =~= b);
                    }
                } else if i > n {
                    let ii = i - 1 - n;
                    let jj = j - 1 - n;
                    assert(r[1 + n + ii] matches OptimizableField::WorkerPreamble(w) && w@ == names[ii]);
                    assert(r[1 + n + jj] matches OptimizableField::WorkerPreamble(w) && w@ == names[jj]);
                } else if i == 0 {
                    if j <= n {
                        assert(r[j] matches OptimizableField::OrchestrationPrompt(_));
                    } else {
                        assert(r[j] matches OptimizableField::WorkerPreamble(_));
                    }
                } else {
                    assert(r[i] matches OptimizableField::OrchestrationPrompt(_));
                    assert(r[j] matches OptimizableField::WorkerPreamble(_));
                }
            }
        },
        _ => {},
    }
}

/// Every field that `all_fields` lists can be read.
proof fn lemma_all_fields_readable(c: AuraConfig, r: Seq<OptimizableField>)
    requires
        lists_all_fields(c, r),
        c.orchestration matches Some(o) ==> keys_unique(o.prompts@),
    ensures
        forall|i: int| 0 <= i < r.len() ==> (#[trigger] spec_get_value(r[i], c)) is Some,
{
    assert forall|i: int| 0 <= i < r.len() implies (#[trigger] spec_get_value(r[i], c)) is Some by {
        if i > 0 {
            let o = c.orchestration.unwrap();
            let n = o.prompts@.len();
            if i < 1 + n {
                let k = i - 1;
                assert(r[1 + k] == r[i]);
                let p = r[i]->OrchestrationPrompt_0;
                lemma_prompt_key_of_path(o.prompts@[k].0@);
                lemma_key_pos_unique(o.prompts@, k);
            } else {
                let k = i - 1 - n;
                assert(r[1 + n + k] == r[i]);
                let w = r[i]->WorkerPreamble_0;
                lemma_worker_name_found(o, k);
            }
        }
    }
}

/// Stripping the prompt prefix from a prompt's dotted path gives its name.
proof fn lemma_prompt_key_of_path(name: Seq<char>)
    ensures
        prompt_key(PROMPT_FIELD_PREFIX@ + name) == name,
{
    let full = PROMPT_FIELD_PREFIX@ + name;
    assert(full.subrange(0, PROMPT_FIELD_PREFIX@.len() as int) =~= PROMPT_FIELD_PREFIX@);
    assert(full.subrange(PROMPT_FIELD_PREFIX@.len() as int, full.len() as int) =~= name);
}

/// Every listed worker name has a preamble.
proof fn lemma_worker_name_found(o: OrchestrationConfig, k: int)
    requires
        0 <= k < all_worker_names(o).len(),
    ensures
        worker_preamble(o, all_worker_names(o)[k]) is Some,
{
    let first = key_seq(o.workers@);
    let name = all_worker_names(o)[k];
    if k < first.len() {
        assert(first[k] == name);
        assert(first.contains(name));
        lemma_has_key_contains(o.workers@, name);
    } else {
        let m = o.worker.unwrap();
        let rest = names_not_in(key_seq(m@), first);
        assert(rest[k - first.len()] == name);
        lemma_names_not_in(key_seq(m@), first, k - first.len());
        lemma_has_key_contains(o.workers@, name);
        lemma_has_key_contains(m@, name);
    }
}

/// An element of `names_not_in(xs, ex)` is in `xs` and not in `ex`.
proof fn lemma_names_not_in(xs: Seq<Seq<char>>, ex: Seq<Seq<char>>, k: int)
    requires
        0 <= k < names_not_in(xs, ex).len(),
    ensures
        xs.contains(names_not_in(xs, ex)[k]),
        !ex.contains(names_not_in(xs, ex)[k]),
    decreases xs.len(),
{
    if xs.len() > 0 {
        let d = names_not_in(xs.drop_last(), ex);
        if k < d.len() {
            lemma_names_not_in(xs.drop_last(), ex, k);
            let j = choose|j: int| 0 <= j < xs.drop_last().len() && xs.drop_last()[j] == d[k];
            assert(xs[j] == d[k]);
        } else {
            assert(xs[xs.len() - 1] == xs.last());
        }
    }
}

} // verus!
