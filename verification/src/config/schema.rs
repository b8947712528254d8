//! The Aura agent configuration: what an Aura TOML file holds.
//!
//! Floating-point settings are held as their IEEE-754 bit patterns
//! (`f64::to_bits` / `f32::to_bits`), so that a configuration passes through
//! the library unchanged.
use vstd::prelude::*;
use std::collections::HashMap;
use crate::keyed::{keys_unique, has_key, key_pos, lookup, key_seq, find_key, lemma_update_lookup,
    lemma_push_lookup, lemma_key_pos_unique};
use crate::prompts::{ORCHESTRATOR_PREAMBLE, WORKER_PREAMBLE, WORKER_TASK_PROMPT, SYNTHESIS_PROMPT,
    EVALUATION_PREAMBLE, EVALUATION_PROMPT, REFLECTION_PROMPT, PHASE_CONTINUATION_PROMPT,
    SESSION_HISTORY_TEMPLATE, TODO_SYSTEM_PROMPT, TODO_TOOL_PROMPT, embedded_defaults, default_prompt_names, default_prompt_texts,
    lemma_default_names_distinct};
use crate::text::{strip_prefix_or_self, chars_of, strip_prefix_window, substring, concat2, owned};

verus! {

/// The prefix of the dotted config path of an orchestration prompt.
pub const PROMPT_FIELD_PREFIX: &'static str = "orchestration.prompts.";

/// A complete agent configuration.
#[derive(Debug, Clone, Default, PartialEq)]
pub struct AuraConfig {
    pub llm: LlmConfig,
    pub mcp: Option<McpConfig>,
    pub vector_stores: Vec<VectorStoreConfig>,
    pub tools: Option<ToolsConfig>,
    pub agent: AgentConfig,
    pub orchestration: Option<OrchestrationConfig>,
}

/// The language model that the agent uses, by provider.
#[allow(inconsistent_fields)]
#[derive(Debug, Clone, PartialEq)]
pub enum LlmConfig {
    OpenAI { api_key: String, model: String, base_url: Option<String> },
    Anthropic { api_key: String, model: String, base_url: Option<String> },
    Ollama { model: String, base_url: String },
    Bedrock { model: String, region: String, profile: Option<String> },
    Gemini { api_key: String, model: String, base_url: Option<String> },
}

impl LlmConfig {
    /// The provider's name as written in the `provider` key.
    pub open spec fn spec_provider_name(&self) -> Seq<char> {
        match self {
            LlmConfig::OpenAI { .. } => "openai"@,
            LlmConfig::Anthropic { .. } => "anthropic"@,
            LlmConfig::Ollama { .. } => "ollama"@,
            LlmConfig::Bedrock { .. } => "bedrock"@,
            LlmConfig::Gemini { .. } => "gemini"@,
        }
    }

    /// The configured model.
    pub open spec fn spec_model_name(&self) -> Seq<char> {
        match self {
            LlmConfig::OpenAI { model, .. } => model@,
            LlmConfig::Anthropic { model, .. } => model@,
            LlmConfig::Ollama { model, .. } => model@,
            LlmConfig::Bedrock { model, .. } => model@,
            LlmConfig::Gemini { model, .. } => model@,
        }
    }

    /// The provider's name as written in the `provider` key.
    pub fn provider_name(&self) -> (r: &str)
        ensures
            r@ == self.spec_provider_name(),
    {
        match self {
            LlmConfig::OpenAI { .. } => "openai",
            LlmConfig::Anthropic { .. } => "anthropic",
            LlmConfig::Ollama { .. } => "ollama",
            LlmConfig::Bedrock { .. } => "bedrock",
            LlmConfig::Gemini { .. } => "gemini",
        }
    }

    /// The configured model.
    pub fn model_name(&self) -> (r: &str)
        ensures
            r@ == self.spec_model_name(),
    {
        match self {
            LlmConfig::OpenAI { model, .. } => model.as_str(),
            LlmConfig::Anthropic { model, .. } => model.as_str(),
            LlmConfig::Ollama { model, .. } => model.as_str(),
            LlmConfig::Bedrock { model, .. } => model.as_str(),
            LlmConfig::Gemini { model, .. } => model.as_str(),
        }
    }
}

impl Default for LlmConfig {
    fn default() -> (r: Self)
        ensures
            r matches LlmConfig::OpenAI { api_key, model, base_url } && api_key@ == ""@ && model@
                == "gpt-4o"@ && base_url is None,
    {
        proof {
            reveal_strlit("");
        }
        LlmConfig::OpenAI { api_key: String::new(), model: owned("gpt-4o"), base_url: None }
    }
}

/// The base URL an Ollama provider uses when none is given.
pub fn default_ollama_base_url() -> (r: String)
    ensures
        r@ == "http://localhost:11434"@,
{
    owned("http://localhost:11434")
}

/// The MCP servers the agent may call.
#[derive(Debug, Clone, Default, PartialEq)]
pub struct McpConfig {
    pub servers: HashMap<String, McpServerConfig>,
    pub sanitize_schemas: bool,
}

/// Whether MCP tool schemas are sanitized when the key is absent.
pub fn default_sanitize_schemas() -> (r: bool)
    ensures
        r,
{
    true
}

/// How an MCP server is reached.
#[derive(Debug, Clone, PartialEq)]
pub enum McpServerConfig {
    HttpStreamable {
        url: String,
        headers: HashMap<String, String>,
        description: Option<String>,
        headers_from_request: HashMap<String, String>,
    },
    Stdio {
        cmd: Vec<String>,
        args: Vec<String>,
        env: HashMap<String, String>,
        description: Option<String>,
    },
}

/// A vector store the agent can search.
#[derive(Debug, Clone, PartialEq)]
pub struct VectorStoreConfig {
    pub name: String,
    pub store_type: String,
    pub embedding_model: EmbeddingConfig,
    pub url: Option<String>,
    pub collection_name: Option<String>,
    pub context_prefix: Option<String>,
}

/// The embedding model of a vector store.
#[derive(Debug, Clone, Default, PartialEq)]
pub struct EmbeddingConfig {
    pub provider: String,
    pub model: String,
    pub api_key: String,
}

/// Built-in tools.
#[derive(Debug, Clone, Default, PartialEq)]
pub struct ToolsConfig {
    pub filesystem: bool,
    pub custom_tools: Vec<String>,
}

/// The agent itself.  `temperature_bits` is the bit pattern of the `f64` temperature.
#[derive(Debug, Clone, PartialEq)]
pub struct AgentConfig {
    pub name: String,
    pub system_prompt: String,
    pub temperature_bits: Option<u64>,
    pub max_tokens: Option<u64>,
    pub turn_depth: Option<usize>,
    pub mcp_filter: Option<Vec<String>>,
}

/// The bit pattern of the `f64` value 0.7, the default temperature.
pub const DEFAULT_TEMPERATURE_BITS: u64 = 0x3FE6_6666_6666_6666u64;

/// The turn depth when the key is absent.
pub fn default_turn_depth() -> (r: Option<usize>)
    ensures
        r == Some(5usize),
{
    Some(5)
}

impl Default for AgentConfig {
    fn default() -> (r: Self)
        ensures
            r.name@ == "Assistant"@,
            r.system_prompt@ == "You are a helpful assistant."@,
            r.temperature_bits == Some(DEFAULT_TEMPERATURE_BITS),
            r.max_tokens is None,
            r.turn_depth == Some(5usize),
            r.mcp_filter is None,
    {
        AgentConfig {
            name: owned("Assistant"),
            system_prompt: owned("You are a helpful assistant."),
            temperature_bits: Some(DEFAULT_TEMPERATURE_BITS),
            max_tokens: None,
            turn_depth: default_turn_depth(),
            mcp_filter: None,
        }
    }
}

/// A specialized worker of the orchestration mode.
#[derive(Debug, Clone, PartialEq)]
pub struct WorkerConfig {
    pub description: String,
    pub preamble: String,
    pub mcp_filter: Vec<String>,
}

/// Workers by name; each name occurs once, in insertion order.
#[derive(Debug, PartialEq)]
pub struct WorkerMap {
    entries: Vec<(String, WorkerConfig)>,
}

impl View for WorkerMap {
    type V = Seq<(String, WorkerConfig)>;

    closed spec fn view(&self) -> Seq<(String, WorkerConfig)> {
        self.entries@
    }
}

impl WorkerMap {
    #[verifier::type_invariant]
    spec fn wf(&self) -> bool {
        keys_unique(self.entries@)
    }

    /// No worker name occurs twice.
    pub(crate) fn names_are_unique(&self)
        ensures
            keys_unique(self@),
    {
        proof {
            use_type_invariant(self);
        }
    }

    /// An empty map.
    pub fn new() -> (r: Self)
        ensures
            r@ == Seq::<(String, WorkerConfig)>::empty(),
    {
        WorkerMap { entries: Vec::new() }
    }

    /// The number of workers.
    pub fn len(&self) -> (r: usize)
        ensures
            r == self@.len(),
    {
        self.entries.len()
    }

    /// Whether there are no workers.
    pub fn is_empty(&self) -> (r: bool)
        ensures
            r == (self@.len() == 0),
    {
        self.entries.len() == 0
    }

    /// Whether a worker is named `name`.
    pub fn contains_key(&self, name: &str) -> (r: bool)
        ensures
            r == has_key(self@, name@),
    {
        proof {
            use_type_invariant(self);
        }
        find_key(&self.entries, name).is_some()
    }

    /// The worker named `name`.
    pub fn get(&self, name: &str) -> (r: Option<&WorkerConfig>)
        ensures
            match r {
                Some(w) => lookup(self@, name@) == Some(*w),
                None => lookup(self@, name@) is None,
            },
    {
        proof {
            use_type_invariant(self);
        }
        match find_key(&self.entries, name) {
            Some(i) => Some(&self.entries[i].1),
            None => None,
        }
    }

    /// Adds the worker `name`, or replaces the one of that name in place.
    /// Returns whether one was replaced.
    pub fn insert(&mut self, name: String, worker: WorkerConfig) -> (r: bool)
        ensures
            r == has_key(old(self)@, name@),
            lookup(final(self)@, name@) == Some(worker),
            forall|k: Seq<char>|
                k != name@ ==> #[trigger] lookup(final(self)@, k) == lookup(old(self)@, k),
            key_seq(final(self)@) == if r {
                key_seq(old(self)@)
            } else {
                key_seq(old(self)@).push(name@)
            },
    {
        proof {
            use_type_invariant(&*self);
        }
        let mut entries: Vec<(String, WorkerConfig)> = Vec::new();
        std::mem::swap(&mut entries, &mut self.entries);
        let found = find_key(&entries, name.as_str());
        let ghost old_entries = entries@;
        let ghost new_name = name@;
        match found {
            Some(i) => {
                proof {
                    lemma_update_lookup(old_entries, i as int, (name, worker));
                }
                entries.set(i, (name, worker));
                assert(key_seq(entries@) =~= key_seq(old_entries));
                self.entries = entries;
                true
            },
            None => {
                proof {
                    lemma_push_lookup(old_entries, (name, worker));
                }
                entries.push((name, worker));
                assert(key_seq(entries@) =~= key_seq(old_entries).push(new_name));
                self.entries = entries;
                false
            },
        }
    }

    /// Sets the preamble of the worker `name`, if there is one.  Returns whether there was.
    pub fn set_preamble(&mut self, name: &str, preamble: String) -> (r: bool)
        ensures
            r == has_key(old(self)@, name@),
            r ==> (lookup(final(self)@, name@) matches Some(w) && w.preamble@ == preamble@
                && w.description == lookup(old(self)@, name@).unwrap().description
                && w.mcp_filter == lookup(old(self)@, name@).unwrap().mcp_filter),
            forall|k: Seq<char>|
                k != name@ ==> #[trigger] lookup(final(self)@, k) == lookup(old(self)@, k),
            key_seq(final(self)@) == key_seq(old(self)@),
            !r ==> final(self)@ == old(self)@,
    {
        proof {
            use_type_invariant(&*self);
        }
        let mut entries: Vec<(String, WorkerConfig)> = Vec::new();
        std::mem::swap(&mut entries, &mut self.entries);
        let found = find_key(&entries, name);
        let ghost old_entries = entries@;
        match found {
            Some(i) => {
                let (key, mut w) = entries.remove(i);
                proof {
                    assert(key@ == old_entries[i as int].0@);
                    lemma_key_pos_unique(old_entries, i as int);
                }
                w.preamble = preamble;
                let ghost e = (key, w);
                proof {
                    lemma_update_lookup(old_entries, i as int, e);
                }
                entries.insert(i, (key, w));
                assert(entries@ =~= old_entries.update(i as int, e));
                assert(key_seq(entries@) =~= key_seq(old_entries));
                self.entries = entries;
                true
            },
            None => {
                self.entries = entries;
                false
            },
        }
    }

    /// The workers' names, in order.
    pub fn names(&self) -> (r: Vec<String>)
        ensures
            r@.map_values(|s: String| s@) == key_seq(self@),
    {
        let mut r: Vec<String> = Vec::new();
        let mut i: usize = 0;
        while i < self.entries.len()
            invariant
                i <= self.entries@.len(),
                r@.map_values(|s: String| s@) == key_seq(self.entries@).take(i as int),
            decreases self.entries.len() - i,
        {
            let ghost old_r = r@;
            r.push(self.entries[i].0.clone());
            assert(r@.map_values(|s: String| s@) =~= old_r.map_values(|s: String| s@).push(
                self.entries@[i as int].0@,
            ));
            assert(key_seq(self.entries@).take(i + 1) =~= key_seq(self.entries@).take(
                i as int,
            ).push(self.entries@[i as int].0@));
            i = i + 1;
        }
        assert(key_seq(self.entries@).take(i as int) =~= key_seq(self.entries@));
        r
    }

    /// The entries, in order.
    pub fn entries(&self) -> (r: &Vec<(String, WorkerConfig)>)
        ensures
            r@ == self@,
    {
        &self.entries
    }
}

impl Clone for WorkerMap {
    fn clone(&self) -> (r: Self)
        ensures
            key_seq(r@) == key_seq(self@),
    {
        proof {
            use_type_invariant(self);
        }
        let mut entries: Vec<(String, WorkerConfig)> = Vec::new();
        let mut i: usize = 0;
        while i < self.entries.len()
            invariant
                i <= self.entries@.len(),
                keys_unique(self.entries@),
                key_seq(entries@) == key_seq(self.entries@).take(i as int),
            decreases self.entries.len() - i,
        {
            let ghost old_entries = entries@;
            entries.push((self.entries[i].0.clone(), self.entries[i].1.clone()));
            assert(key_seq(entries@) =~= key_seq(old_entries).push(self.entries@[i as int].0@));
            assert(key_seq(self.entries@).take(i + 1) =~= key_seq(self.entries@).take(i as int).push(
                self.entries@[i as int].0@,
            ));
            i = i + 1;
        }
        assert(key_seq(self.entries@).take(i as int) =~= key_seq(self.entries@));
        proof {
            assert forall|a: int, b: int|
                0 <= a < entries@.len() && 0 <= b < entries@.len() && a != b implies #[trigger] entries@[a].0@
                != #[trigger] entries@[b].0@ by {
                assert(key_seq(entries@)[a] == entries@[a].0@);
                assert(key_seq(entries@)[b] == entries@[b].0@);
                assert(key_seq(self.entries@)[a] == self.entries@[a].0@);
                assert(key_seq(self.entries@)[b] == self.entries@[b].0@);
            }
        }
        WorkerMap { entries }
    }
}

impl Default for WorkerMap {
    fn default() -> (r: Self)
        ensures
            r@ == Seq::<(String, WorkerConfig)>::empty(),
    {
        WorkerMap::new()
    }
}

/// The orchestration mode: a coordinator that plans and delegates to workers.
/// `quality_threshold_bits` is the bit pattern of the `f32` quality threshold.
#[derive(Debug, Clone, Default, PartialEq)]
pub struct OrchestrationConfig {
    pub enabled: bool,
    pub max_planning_cycles: usize,
    pub quality_threshold_bits: u32,
    pub workers: WorkerMap,
    pub worker: Option<WorkerMap>,
    pub prompts: OrchestrationPrompts,
}

/// The planning cycles when the key is absent.
pub fn default_max_planning_cycles() -> (r: usize)
    ensures
        r == 3,
{
    3
}

/// The bit pattern of the `f32` value 0.8, the default quality threshold.
pub const DEFAULT_QUALITY_THRESHOLD_BITS: u32 = 0x3F4C_CCCDu32;

/// The default quality threshold, as the bit pattern of an `f32`.
pub fn default_quality_threshold_bits() -> (r: u32)
    ensures
        r == DEFAULT_QUALITY_THRESHOLD_BITS,
{
    DEFAULT_QUALITY_THRESHOLD_BITS
}

/// The built-in orchestrator preamble.
pub fn default_orchestrator_preamble() -> (r: String)
    ensures
        r@ == ORCHESTRATOR_PREAMBLE@,
{
    owned(ORCHESTRATOR_PREAMBLE)
}

/// The built-in worker preamble.
pub fn default_worker_preamble() -> (r: String)
    ensures
        r@ == WORKER_PREAMBLE@,
{
    owned(WORKER_PREAMBLE)
}

/// The built-in worker task prompt.
pub fn default_worker_task_prompt() -> (r: String)
    ensures
        r@ == WORKER_TASK_PROMPT@,
{
    owned(WORKER_TASK_PROMPT)
}

/// The built-in synthesis prompt.
pub fn default_synthesis_prompt() -> (r: String)
    ensures
        r@ == SYNTHESIS_PROMPT@,
{
    owned(SYNTHESIS_PROMPT)
}

/// The built-in evaluation preamble.
pub fn default_evaluation_preamble() -> (r: String)
    ensures
        r@ == EVALUATION_PREAMBLE@,
{
    owned(EVALUATION_PREAMBLE)
}

/// The built-in evaluation prompt.
pub fn default_evaluation_prompt() -> (r: String)
    ensures
        r@ == EVALUATION_PROMPT@,
{
    owned(EVALUATION_PROMPT)
}

/// The built-in reflection prompt.
pub fn default_reflection_prompt() -> (r: String)
    ensures
        r@ == REFLECTION_PROMPT@,
{
    owned(REFLECTION_PROMPT)
}

/// The built-in phase continuation prompt.
pub fn default_phase_continuation_prompt() -> (r: String)
    ensures
        r@ == PHASE_CONTINUATION_PROMPT@,
{
    owned(PHASE_CONTINUATION_PROMPT)
}

/// The built-in session history template.
pub fn default_session_history_template() -> (r: String)
    ensures
        r@ == SESSION_HISTORY_TEMPLATE@,
{
    owned(SESSION_HISTORY_TEMPLATE)
}

/// The built-in task list system prompt.
pub fn default_todo_system_prompt() -> (r: String)
    ensures
        r@ == TODO_SYSTEM_PROMPT@,
{
    owned(TODO_SYSTEM_PROMPT)
}

/// The built-in task list tool prompt.
pub fn default_todo_tool_prompt() -> (r: String)
    ensures
        r@ == TODO_TOOL_PROMPT@,
{
    owned(TODO_TOOL_PROMPT)
}


/// The names of all workers: those under `workers`, then those under
/// `worker` that `workers` does not already name.
pub open spec fn all_worker_names(o: OrchestrationConfig) -> Seq<Seq<char>> {
    key_seq(o.workers@) + match o.worker {
        Some(w) => names_not_in(key_seq(w@), key_seq(o.workers@)),
        None => Seq::empty(),
    }
}

/// The names of `xs` that `exclude` does not hold, in order.
pub open spec fn names_not_in(xs: Seq<Seq<char>>, exclude: Seq<Seq<char>>) -> Seq<Seq<char>>
    decreases xs.len(),
{
    if xs.len() == 0 {
        seq![]
    } else {
        let d = names_not_in(xs.drop_last(), exclude);
        if exclude.contains(xs.last()) {
            d
        } else {
            d.push(xs.last())
        }
    }
}

impl OrchestrationConfig {
    /// The names of all workers (see `all_worker_names`).
    pub fn all_worker_names(&self) -> (r: Vec<String>)
        ensures
            r@.map_values(|s: String| s@) == all_worker_names(*self),
            all_worker_names(*self).no_duplicates(),
    {
        self.workers.names_are_unique();
        match &self.worker {
            Some(w) => w.names_are_unique(),
            None => {},
        }
        proof {
            lemma_all_worker_names_distinct(*self);
        }
        let mut r = self.workers.names();
        let ghost first = key_seq(self.workers@);
        match &self.worker {
            Some(extra) => {
                let names = extra.names();
                let ghost extra_keys = key_seq(extra@);
                let mut i: usize = 0;
                while i < names.len()
                    invariant
                        i <= names@.len(),
                        names@.map_values(|s: String| s@) == extra_keys,
                        first == key_seq(self.workers@),
                        r@.map_values(|s: String| s@) == first + names_not_in(
                            extra_keys.take(i as int),
                            first,
                        ),
                    decreases names.len() - i,
                {
                    let ghost old_r = r@;
                    assert(extra_keys.take(i + 1).drop_last() =~= extra_keys.take(i as int));
                    assert(extra_keys.take(i + 1).last() == extra_keys[i as int]);
                    assert(extra_keys[i as int] == names@[i as int]@);
                    if !self.workers.contains_key(names[i].as_str()) {
                        proof {
                            lemma_has_key_contains(self.workers@, names@[i as int]@);
                        }
                        r.push(names[i].clone());
                        assert(r@.map_values(|s: String| s@) =~= old_r.map_values(
                            |s: String| s@,
                        ).push(names@[i as int]@));
                        assert(first + names_not_in(extra_keys.take(i + 1), first) =~= (first
                            + names_not_in(extra_keys.take(i as int), first)).push(
                            extra_keys[i as int],
                        ));
                    } else {
                        proof {
                            lemma_has_key_contains(self.workers@, names@[i as int]@);
                        }
                    }
                    i = i + 1;
                }
                assert(extra_keys.take(i as int) =~= extra_keys);
                r
            },
            None => {
                assert(first + Seq::<Seq<char>>::empty() =~= first);
                r
            },
        }
    }
}

/// The names of a list without repeated names have no repeats.
pub proof fn lemma_key_seq_distinct<V>(entries: Seq<(String, V)>)
    requires
        keys_unique(entries),
    ensures
        key_seq(entries).no_duplicates(),
{
    let ks = key_seq(entries);
    assert forall|i: int, j: int| 0 <= i < ks.len() && 0 <= j < ks.len() && i != j implies ks[i]
        != ks[j] by {
        assert(ks[i] == entries[i].0@);
        assert(ks[j] == entries[j].0@);
    }
}

/// The names of `xs` that `exclude` lacks have no repeats when `xs` has
/// none, and none of them is in `exclude`.
pub proof fn lemma_names_not_in(xs: Seq<Seq<char>>, exclude: Seq<Seq<char>>)
    requires
        xs.no_duplicates(),
    ensures
        names_not_in(xs, exclude).no_duplicates(),
        forall|i: int|
            0 <= i < names_not_in(xs, exclude).len() ==> !exclude.contains(
                #[trigger] names_not_in(xs, exclude)[i],
            ) && xs.contains(names_not_in(xs, exclude)[i]),
    decreases xs.len(),
{
    if xs.len() > 0 {
        let d = xs.drop_last();
        assert(d.no_duplicates()) by {
            assert forall|i: int, j: int| 0 <= i < d.len() && 0 <= j < d.len() && i != j implies d[i]
                != d[j] by {
                assert(d[i] == xs[i] && d[j] == xs[j]);
            }
        }
        lemma_names_not_in(d, exclude);
        let nd = names_not_in(d, exclude);
        assert forall|i: int| 0 <= i < nd.len() implies xs.contains(#[trigger] nd[i]) by {
            let k = choose|k: int| 0 <= k < d.len() && d[k] == nd[i];
            assert(xs[k] == d[k]);
        }
        if !exclude.contains(xs.last()) {
            let r = nd.push(xs.last());
            assert forall|i: int| 0 <= i < nd.len() implies #[trigger] nd[i] != xs.last() by {
                let k = choose|k: int| 0 <= k < d.len() && d[k] == nd[i];
                assert(xs[k] == d[k]);
            }
            assert forall|i: int, j: int| 0 <= i < r.len() && 0 <= j < r.len() && i != j implies r[i]
                != r[j] by {
                if i < nd.len() && j < nd.len() {
                } else if i < nd.len() {
                    assert(r[j] == xs.last());
                } else {
                    assert(r[i] == xs.last());
                }
            }
            assert forall|i: int| 0 <= i < r.len() implies !exclude.contains(#[trigger] r[i])
                && xs.contains(r[i]) by {
                if i < nd.len() {
                    assert(r[i] == nd[i]);
                } else {
                    assert(xs[xs.len() - 1] == r[i]);
                }
            }
        }
    }
}

/// No worker is named twice among all the workers.
pub proof fn lemma_all_worker_names_distinct(o: OrchestrationConfig)
    requires
        keys_unique(o.workers@),
        o.worker matches Some(w) ==> keys_unique(w@),
    ensures
        all_worker_names(o).no_duplicates(),
{
    let a = key_seq(o.workers@);
    lemma_key_seq_distinct(o.workers@);
    match o.worker {
        Some(w) => {
            lemma_key_seq_distinct(w@);
            lemma_names_not_in(key_seq(w@), a);
            let b = names_not_in(key_seq(w@), a);
            let all = a + b;
            assert forall|i: int, j: int| 0 <= i < all.len() && 0 <= j < all.len() && i != j implies all[i]
                != all[j] by {
                if i < a.len() && j < a.len() {
                } else if i >= a.len() && j >= a.len() {
                    assert(all[i] == b[i - a.len()] && all[j] == b[j - a.len()]);
                } else if i < a.len() {
                    assert(all[j] == b[j - a.len()]);
                    assert(!a.contains(b[j - a.len()]));
                    assert(a[i] == all[i]);
                } else {
                    assert(all[i] == b[i - a.len()]);
                    assert(!a.contains(b[i - a.len()]));
                    assert(a[j] == all[j]);
                }
            }
        },
        None => {
            assert(a + Seq::<Seq<char>>::empty() =~= a);
        },
    }
}

/// `has_key` is membership in the list of names.
pub proof fn lemma_has_key_contains<V>(entries: Seq<(String, V)>, k: Seq<char>)
    ensures
        has_key(entries, k) == key_seq(entries).contains(k),
{
    if has_key(entries, k) {
        let i = choose|i: int| 0 <= i < entries.len() && #[trigger] entries[i].0@ == k;
        assert(key_seq(entries)[i] == k);
    }
    if key_seq(entries).contains(k) {
        let i = choose|i: int| 0 <= i < key_seq(entries).len() && key_seq(entries)[i] == k;
        assert(entries[i].0@ == k);
    }
}

/// The name under which a prompt field is stored: its dotted path without
/// the `orchestration.prompts.` prefix, or the name itself.
pub open spec fn prompt_key(field: Seq<char>) -> Seq<char> {
    strip_prefix_or_self(field, PROMPT_FIELD_PREFIX@)
}

/// The text stored under `key`, if any.
pub open spec fn prompt_value(entries: Seq<(String, String)>, key: Seq<char>) -> Option<Seq<char>> {
    match lookup(entries, key) {
        Some(v) => Some(v@),
        None => None,
    }
}

/// The name under which the prompt field `field` is stored.
pub fn prompt_key_of(field: &str) -> (r: String)
    ensures
        r@ == prompt_key(field@),
{
    let v = chars_of(field);
    let p = chars_of(PROMPT_FIELD_PREFIX);
    let a = strip_prefix_window(&v, 0, v.len(), &p);
    assert(v@.subrange(0, v@.len() as int) =~= v@);
    substring(field, a, v.len())
}

/// The orchestration prompt templates by name, in order; each name occurs once.
///
/// Each prompt defaults to the built-in template of the same name; a
/// configuration may override any of them and may add new ones.
#[derive(Debug, PartialEq)]
pub struct OrchestrationPrompts {
    entries: Vec<(String, String)>,
}

impl View for OrchestrationPrompts {
    type V = Seq<(String, String)>;

    closed spec fn view(&self) -> Seq<(String, String)> {
        self.entries@
    }
}

impl OrchestrationPrompts {
    #[verifier::type_invariant]
    spec fn wf(&self) -> bool {
        keys_unique(self.entries@)
    }

    /// No prompts at all.
    pub fn new() -> (r: Self)
        ensures
            r@ == Seq::<(String, String)>::empty(),
    {
        OrchestrationPrompts { entries: Vec::new() }
    }

    /// The number of prompts.
    pub fn len(&self) -> (r: usize)
        ensures
            r == self@.len(),
    {
        self.entries.len()
    }

    /// No prompt name occurs twice.
    pub(crate) fn names_are_unique(&self)
        ensures
            keys_unique(self@),
    {
        proof {
            use_type_invariant(self);
        }
    }

    /// Whether there are no prompts.
    pub fn is_empty(&self) -> (r: bool)
        ensures
            r == (self@.len() == 0),
    {
        self.entries.len() == 0
    }

    /// Gets a prompt by its name or by its dotted path.
    pub fn get_field(&self, field: &str) -> (r: Option<&str>)
        ensures
            match r {
                Some(v) => prompt_value(self@, prompt_key(field@)) == Some(v@),
                None => prompt_value(self@, prompt_key(field@)) is None,
            },
    {
        proof {
            use_type_invariant(self);
        }
        let key = prompt_key_of(field);
        match find_key(&self.entries, key.as_str()) {
            Some(i) => Some(self.entries[i].1.as_str()),
            None => None,
        }
    }

    /// Sets a prompt by its name or by its dotted path, adding it when it is
    /// new.  Returns true: the text is always stored.
    pub fn set_field(&mut self, field: &str, value: String) -> (r: bool)
        ensures
            r,
            prompt_value(final(self)@, prompt_key(field@)) == Some(value@),
            forall|k: Seq<char>|
                k != prompt_key(field@) ==> #[trigger] prompt_value(final(self)@, k)
                    == prompt_value(old(self)@, k),
            key_seq(final(self)@) == if has_key(old(self)@, prompt_key(field@)) {
                key_seq(old(self)@)
            } else {
                key_seq(old(self)@).push(prompt_key(field@))
            },
    {
        proof {
            use_type_invariant(&*self);
        }
        let key = prompt_key_of(field);
        let mut entries: Vec<(String, String)> = Vec::new();
        std::mem::swap(&mut entries, &mut self.entries);
        let found = find_key(&entries, key.as_str());
        let ghost old_entries = entries@;
        let ghost k = key@;
        let ghost v = value@;
        match found {
            Some(i) => {
                proof {
                    lemma_update_lookup(old_entries, i as int, (key, value));
                }
                entries.set(i, (key, value));
                assert(key_seq(entries@) =~= key_seq(old_entries));
                self.entries = entries;
                true
            },
            None => {
                proof {
                    lemma_push_lookup(old_entries, (key, value));
                }
                entries.push((key, value));
                assert(key_seq(entries@) =~= key_seq(old_entries).push(k));
                self.entries = entries;
                true
            },
        }
    }

    /// Each prompt's dotted config path and its text, in order.
    pub fn fields(&self) -> (r: Vec<(String, &str)>)
        ensures
            r@.len() == self@.len(),
            forall|i: int|
                0 <= i < r@.len() ==> #[trigger] r@[i].0@ == PROMPT_FIELD_PREFIX@ + self@[i].0@
                    && r@[i].1@ == self@[i].1@,
    {
        let mut r: Vec<(String, &str)> = Vec::new();
        let mut i: usize = 0;
        while i < self.entries.len()
            invariant
                i <= self.entries@.len(),
                r@.len() == i,
                forall|j: int|
                    0 <= j < i ==> #[trigger] r@[j].0@ == PROMPT_FIELD_PREFIX@
                        + self.entries@[j].0@ && r@[j].1@ == self.entries@[j].1@,
            decreases self.entries.len() - i,
        {
            let path = concat2(PROMPT_FIELD_PREFIX, self.entries[i].0.as_str());
            r.push((path, self.entries[i].1.as_str()));
            i = i + 1;
        }
        r
    }

    /// Copies of each prompt's name and text, in order.
    pub fn entries(&self) -> (r: Vec<(String, String)>)
        ensures
            r@.len() == self@.len(),
            forall|i: int|
                0 <= i < r@.len() ==> #[trigger] r@[i].0@ == self@[i].0@ && r@[i].1@
                    == self@[i].1@,
    {
        let mut r: Vec<(String, String)> = Vec::new();
        let mut i: usize = 0;
        while i < self.entries.len()
            invariant
                i <= self.entries@.len(),
                r@.len() == i,
                forall|j: int|
                    0 <= j < i ==> #[trigger] r@[j].0@ == self.entries@[j].0@ && r@[j].1@
                        == self.entries@[j].1@,
            decreases self.entries.len() - i,
        {
            r.push((self.entries[i].0.clone(), self.entries[i].1.clone()));
            i = i + 1;
        }
        r
    }
}

impl Clone for OrchestrationPrompts {
    fn clone(&self) -> (r: Self)
        ensures
            r@.len() == self@.len(),
            forall|i: int|
                0 <= i < r@.len() ==> #[trigger] r@[i].0@ == self@[i].0@ && r@[i].1@
                    == self@[i].1@,
    {
        proof {
            use_type_invariant(self);
        }
        let entries = self.entries();
        proof {
            assert forall|a: int, b: int|
                0 <= a < entries@.len() && 0 <= b < entries@.len() && a != b implies #[trigger] entries@[a].0@
                != #[trigger] entries@[b].0@ by {
                assert(entries@[a].0@ == self.entries@[a].0@);
                assert(entries@[b].0@ == self.entries@[b].0@);
            }
        }
        OrchestrationPrompts { entries }
    }
}

impl Default for OrchestrationPrompts {
    /// The built-in prompts, in canonical order.
    fn default() -> (r: Self)
        ensures
            r@.len() == 11,
            forall|i: int|
                0 <= i < 11 ==> #[trigger] r@[i].0@ == default_prompt_names()[i] && r@[i].1@
                    == default_prompt_texts()[i],
    {
        let entries = embedded_defaults();
        proof {
            lemma_default_names_distinct();
            assert forall|i: int, j: int|
                0 <= i < entries@.len() && 0 <= j < entries@.len() && i != j implies #[trigger] entries@[i].0@
                != #[trigger] entries@[j].0@ by {
                assert(entries@[i].0@ == default_prompt_names()[i]);
                assert(entries@[j].0@ == default_prompt_names()[j]);
            }
        }
        OrchestrationPrompts { entries }
    }
}

} // verus!
