//! The evaluation scenarios used when no dataset is given.
use vstd::prelude::*;
use crate::config::schema::AuraConfig;
use crate::eval::scenario::{EvalDataset, EvalScenario};

verus! {

pub const DATASET_NAME: &'static str = "default-eval";
pub const PARALLEL_NAME: &'static str = "parallel-diagnosis";
pub const PARALLEL_INPUT: &'static str = "A deployment called payments-api is reporting elevated 5xx error rates. Check recent events in the payments namespace and pull the error_rate metric for the last 30 minutes. Tell me if this is an app problem or an infra problem.";
pub const PARALLEL_TASK: &'static str = "The response should: (1) reference findings from both a Kubernetes tool call and a Prometheus metric query, (2) quote specific values or events when citing evidence, (3) make a clear verdict (app vs infra vs unclear) backed by the evidence. Score 0 for no verdict or made-up data, 0.5 for partial coverage, 1.0 for a grounded multi-signal diagnosis.";
pub const ROUTING_NAME: &'static str = "single-worker-routing";
pub const ROUTING_INPUT: &'static str = "List all pods in the kube-system namespace.";
pub const ROUTING_TASK: &'static str = "The response should route this to the cluster_inspector worker only, without invoking metrics_analyst or planning multi-step orchestration for a trivial single-tool task. Score 1.0 if the response contains a list of pods from kube-system, 0.5 if it routes correctly but adds unnecessary preamble, 0 if it invokes Prometheus or refuses.";
pub const DEGRADATION_NAME: &'static str = "graceful-degradation";
pub const DEGRADATION_INPUT: &'static str = "What's the CPU usage for a service called 'totally-nonexistent-service-xyz'?";
pub const DEGRADATION_TASK: &'static str = "The response should acknowledge that no metric matched, explain what was searched for, and not fabricate numbers. Score 1.0 for explicit 'not found' with query details, 0.5 for acknowledging no data but thin explanation, 0 for hallucinating metrics.";
pub const SYNTHESIS_NAME: &'static str = "cross-domain-synthesis";
pub const SYNTHESIS_INPUT: &'static str = "Is the payments-api deployment healthy right now? Use whatever signals are available.";
pub const SYNTHESIS_TASK: &'static str = "The response should synthesize evidence from multiple sources (at least pod status from cluster_inspector AND metrics from metrics_analyst) into a single cohesive answer, not two disjoint sections. Score 1.0 for integrated synthesis, 0.5 for both sources but stitched-together prose, 0 for single-source or no data.";
pub const BASIC_NAME: &'static str = "basic-diagnosis";
pub const BASIC_INPUT: &'static str = "Help me diagnose a performance issue with our web application. Users report slow page loads during peak hours.";
pub const BASIC_TASK: &'static str = "The response should outline specific diagnostic steps in a prioritized order, mentioning concrete signals to check (CPU, memory, DB, network). Score 1.0 for a structured prioritized list with reasoning, 0.5 for a vague list, 0 for generic non-actionable advice.";

/// The scenario named `name` with `input` and the task description `task`.
pub open spec fn is_scenario(s: EvalScenario, name: Seq<char>, input: Seq<char>, task: Seq<char>) -> bool {
    &&& s.name@ == name
    &&& s.input@ == input
    &&& s.expected_output is None
    &&& s.tags@.len() == 0
    &&& s.task_description matches Some(t) && t@ == task
}

/// Orchestration is configured and enabled.
pub open spec fn orchestration_enabled(config: AuraConfig) -> bool {
    config.orchestration matches Some(o) && o.enabled
}

fn scenario(name: &str, input: &str, task: &str) -> (r: EvalScenario)
    ensures
        is_scenario(r, name@, input@, task@),
{
    EvalScenario::new(name, input).with_task_description(task)
}

/// The built-in evaluation scenarios: four orchestration scenarios when
/// orchestration is enabled, else one general diagnosis scenario.
pub fn default_eval_dataset(config: &AuraConfig) -> (r: EvalDataset)
    ensures
        r.name@ == DATASET_NAME@,
        orchestration_enabled(*config) ==> {
            &&& r.scenarios@.len() == 4
            &&& is_scenario(r.scenarios@[0], PARALLEL_NAME@, PARALLEL_INPUT@, PARALLEL_TASK@)
            &&& is_scenario(r.scenarios@[1], ROUTING_NAME@, ROUTING_INPUT@, ROUTING_TASK@)
            &&& is_scenario(r.scenarios@[2], DEGRADATION_NAME@, DEGRADATION_INPUT@, DEGRADATION_TASK@)
            &&& is_scenario(r.scenarios@[3], SYNTHESIS_NAME@, SYNTHESIS_INPUT@, SYNTHESIS_TASK@)
        },
        !orchestration_enabled(*config) ==> {
            &&& r.scenarios@.len() == 1
            &&& is_scenario(r.scenarios@[0], BASIC_NAME@, BASIC_INPUT@, BASIC_TASK@)
        },
{
    let has_orchestration = match &config.orchestration {
        Some(o) => o.enabled,
        None => false,
    };
    let dataset = EvalDataset::new(DATASET_NAME);
    if has_orchestration {
        dataset
            .add(scenario(PARALLEL_NAME, PARALLEL_INPUT, PARALLEL_TASK))
            .add(scenario(ROUTING_NAME, ROUTING_INPUT, ROUTING_TASK))
            .add(scenario(DEGRADATION_NAME, DEGRADATION_INPUT, DEGRADATION_TASK))
            .add(scenario(SYNTHESIS_NAME, SYNTHESIS_INPUT, SYNTHESIS_TASK))
    } else {
        dataset.add(scenario(BASIC_NAME, BASIC_INPUT, BASIC_TASK))
    }
}

} // verus!
