//! What the evaluation metrics decide about an agent's output.
use vstd::prelude::*;
use crate::eval::scenario::EvalScenario;
use crate::optimizer::fences::{spec_strip_code_fences, code_fence_window};
use crate::text::{trim, has_substring, trimmed, str_eq, contains_str, substring, owned};

verus! {

/// What `str::to_lowercase` gives for `s`.
pub uninterp spec fn lowercase(s: Seq<char>) -> Seq<char>;

/// `str::to_lowercase`: the Unicode lowercase mapping of `s`.  Its contract
/// only ties the outcome to `lowercase`.
#[verifier::external_body]
pub(crate) fn to_lowercase(s: &str) -> (r: String)
    ensures
        r@ == lowercase(s@),
{
    s.to_lowercase()
}

/// The expected output of a scenario; none is read as the empty text.
pub open spec fn expected_text(scenario: EvalScenario) -> Seq<char> {
    match scenario.expected_output {
        Some(e) => e@,
        None => Seq::empty(),
    }
}

/// The expected output of `scenario`, or the empty text.
fn expected_of(scenario: &EvalScenario) -> (r: &str)
    ensures
        r@ == expected_text(*scenario),
{
    match &scenario.expected_output {
        Some(e) => e.as_str(),
        None => {
            proof {
                reveal_strlit("");
            }
            ""
        },
    }
}

/// ExactMatch: the output, trimmed, equals the expected output, trimmed.
pub fn exact_match(scenario: &EvalScenario, output: &str) -> (r: bool)
    ensures
        r == (trim(output@) == trim(expected_text(*scenario))),
{
    let expected = expected_of(scenario);
    let a = trimmed(output);
    let b = trimmed(expected);
    str_eq(a.as_str(), b.as_str())
}

/// FuzzyMatch: the output contains the expected output; unless
/// `case_sensitive`, both are lowercased first.
pub fn fuzzy_match(scenario: &EvalScenario, output: &str, case_sensitive: bool) -> (r: bool)
    ensures
        r == if case_sensitive {
            has_substring(output@, expected_text(*scenario))
        } else {
            has_substring(lowercase(output@), lowercase(expected_text(*scenario)))
        },
{
    let expected = expected_of(scenario);
    if case_sensitive {
        contains_str(output, expected)
    } else {
        let o = to_lowercase(output);
        let e = to_lowercase(expected);
        contains_str(o.as_str(), e.as_str())
    }
}

/// The system message that goes with every judging request.
pub const JUDGE_SYSTEM_MESSAGE: &'static str = "You are a precise evaluator. Return only valid JSON.";

/// The task assumed when a scenario describes none.
pub const DEFAULT_TASK: &'static str = "complete the given task correctly";

pub const JUDGE_OPENING: &'static str = "You are evaluating an AI agent's response.\n\nTask description: ";
pub const JUDGE_INPUT: &'static str = "\n\nUser input: ";
pub const JUDGE_OUTPUT: &'static str = "\n\nAgent output:\n";
pub const JUDGE_CLOSING: &'static str = "\n\nScore the output from 0 to 10 on how well it completes the task.\nRespond with ONLY a JSON object: {\"score\": <0-10>, \"rationale\": \"<brief explanation>\"}";

/// The task description of a scenario, or the default task.
pub open spec fn task_text(scenario: EvalScenario) -> Seq<char> {
    match scenario.task_description {
        Some(t) => t@,
        None => DEFAULT_TASK@,
    }
}

/// The request that asks a judge model to score `output` for `scenario`.
pub open spec fn spec_judge_prompt(scenario: EvalScenario, output: Seq<char>) -> Seq<char> {
    JUDGE_OPENING@ + task_text(scenario) + JUDGE_INPUT@ + scenario.input@ + JUDGE_OUTPUT@ + output
        + JUDGE_CLOSING@
}

/// Builds the request that asks a judge model to score `output` for `scenario`.
pub fn judge_prompt(scenario: &EvalScenario, output: &str) -> (r: String)
    ensures
        r@ == spec_judge_prompt(*scenario, output@),
{
    let mut r = String::from_str(JUDGE_OPENING);
    match &scenario.task_description {
        Some(t) => r.append(t.as_str()),
        None => r.append(DEFAULT_TASK),
    }
    r.append(JUDGE_INPUT);
    r.append(scenario.input.as_str());
    r.append(JUDGE_OUTPUT);
    r.append(output);
    r.append(JUDGE_CLOSING);
    r
}

/// Strips markdown code fences around a JSON object returned by an LLM judge.
pub fn extract_json(s: &str) -> (r: String)
    ensures
        r@ == spec_strip_code_fences(s@),
{
    let (a, b) = code_fence_window(s);
    substring(s, a, b)
}

} // verus!
