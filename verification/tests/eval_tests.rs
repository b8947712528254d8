use aura_prompt_opt::config::schema::{AgentConfig, AuraConfig};
use aura_prompt_opt::error::Error;
use aura_prompt_opt::eval::agent_runner::{
    agent_messages, aura_reply, first_choice_content, http_failure, openai_reply, request_model,
    response_text, StubAgentRunner,
};
use aura_prompt_opt::eval::defaults::default_eval_dataset;
use aura_prompt_opt::eval::metrics::{exact_match, extract_json, fuzzy_match, judge_prompt};
use aura_prompt_opt::eval::scenario::{EvalDataset, EvalScenario};

fn agent_config(name: &str) -> AuraConfig {
    AuraConfig {
        agent: AgentConfig { name: name.into(), ..AgentConfig::default() },
        ..AuraConfig::default()
    }
}

fn score_of(matched: bool) -> f64 {
    if matched { 1.0 } else { 0.0 }
}

#[test]
fn test_scenario_builder() {
    let scenario = EvalScenario::new("test", "what is 2+2?")
        .with_expected("4")
        .with_task_description("basic math")
        .with_tags(vec!["math".into()]);

    assert_eq!(scenario.name, "test");
    assert_eq!(scenario.input, "what is 2+2?");
    assert_eq!(scenario.expected_output.as_deref(), Some("4"));
    assert_eq!(scenario.tags, vec!["math"]);
}

#[test]
fn test_dataset_builder() {
    let dataset = EvalDataset::new("my-dataset")
        .add(EvalScenario::new("s1", "hello"))
        .add(EvalScenario::new("s2", "world"));

    assert_eq!(dataset.len(), 2);
    assert!(!dataset.is_empty());
}

#[test]
fn empty_dataset_is_empty() {
    let dataset = EvalDataset::new("none");
    assert_eq!(dataset.len(), 0);
    assert!(dataset.is_empty());
}

#[test]
fn test_stub_agent_runner_returns_canned_response() {
    let runner = StubAgentRunner::new();
    let config = agent_config("TestAgent");
    let output = runner.respond(&config, "hello");
    assert!(output.contains("TestAgent"));
    assert!(output.contains("hello"));
    assert_eq!(runner.name(), "stub");
}

#[test]
fn stub_reply_has_exact_form() {
    let runner = StubAgentRunner::default();
    assert_eq!(
        runner.respond(&agent_config("SRE"), "ping"),
        "[STUB] Agent 'SRE' received: ping"
    );
}

#[test]
fn test_eval_runner_stub_returns_output() {
    let config = agent_config("SRE Agent");
    let output = StubAgentRunner::new().respond(&config, "test input");
    assert!(output.contains("SRE Agent"));
    assert!(output.contains("test input"));
}

#[test]
fn test_exact_match_pass() {
    let scenario = EvalScenario::new("test", "q").with_expected("42");
    let matched = exact_match(&scenario, "42");
    assert_eq!(score_of(matched), 1.0);
    assert!(matched);
}

#[test]
fn test_exact_match_fail() {
    let scenario = EvalScenario::new("test", "q").with_expected("42");
    let matched = exact_match(&scenario, "43");
    assert_eq!(score_of(matched), 0.0);
    assert!(!matched);
}

#[test]
fn exact_match_ignores_surrounding_whitespace() {
    let scenario = EvalScenario::new("test", "q").with_expected("  42\n");
    assert!(exact_match(&scenario, "\t42  "));
    let none = EvalScenario::new("test", "q");
    assert!(exact_match(&none, "   "));
    assert!(!exact_match(&none, "x"));
}

#[test]
fn test_fuzzy_match_case_insensitive() {
    let scenario = EvalScenario::new("test", "q").with_expected("hello");
    let found = fuzzy_match(&scenario, "Say HELLO world", false);
    assert_eq!(score_of(found), 1.0);
    assert!(found);
}

#[test]
fn test_fuzzy_match_miss() {
    let scenario = EvalScenario::new("test", "q").with_expected("goodbye");
    let found = fuzzy_match(&scenario, "Hello world", false);
    assert_eq!(score_of(found), 0.0);
}

#[test]
fn fuzzy_match_case_sensitive_distinguishes_case() {
    let scenario = EvalScenario::new("test", "q").with_expected("hello");
    assert!(!fuzzy_match(&scenario, "Say HELLO world", true));
    assert!(fuzzy_match(&scenario, "say hello world", true));
}

#[test]
fn test_fuzzy_metric_in_eval_runner() {
    let config = agent_config("SRE Agent");
    let scenario = EvalScenario::new("test", "hello").with_expected("SRE Agent");
    let output = StubAgentRunner::new().respond(&config, &scenario.input);
    let found = fuzzy_match(&scenario, &output, false);
    assert!(found);
    assert_eq!(score_of(found), 1.0);
}

#[test]
fn judge_prompt_names_task_input_and_output() {
    let scenario = EvalScenario::new("s", "List pods").with_task_description("list them all");
    let prompt = judge_prompt(&scenario, "pod-a, pod-b");
    assert!(prompt.starts_with("You are evaluating an AI agent's response.\n\nTask description: list them all"));
    assert!(prompt.contains("User input: List pods"));
    assert!(prompt.contains("Agent output:\npod-a, pod-b"));
    let plain = judge_prompt(&EvalScenario::new("s", "x"), "y");
    assert!(plain.contains("complete the given task correctly"));
}

#[test]
fn extract_json_strips_fences() {
    assert_eq!(extract_json("```json\n{\"score\": 7}\n```"), "{\"score\": 7}");
    assert_eq!(extract_json("  {\"a\": 1}  "), "{\"a\": 1}");
}

#[test]
fn response_text_prefers_known_keys() {
    assert_eq!(response_text("{\"result\": \"r\", \"response\": \"first\"}"), "first");
    assert_eq!(response_text("{\"message\": \"m\"}"), "m");
    assert_eq!(response_text("{\"other\": 1}"), "{\"other\": 1}");
    assert_eq!(response_text("plain text"), "plain text");
}

#[test]
fn request_model_prefers_override() {
    let config = AuraConfig::default();
    assert_eq!(request_model(&Some("custom".to_string()), &config), "custom");
    assert_eq!(request_model(&None, &config), config.llm.model_name());
}

#[test]
fn agent_messages_are_system_then_user() {
    let config = agent_config("A");
    let msgs = agent_messages(&config, "question");
    assert_eq!(msgs.len(), 2);
    assert_eq!(msgs[0].role, "system");
    assert_eq!(msgs[0].content, config.agent.system_prompt);
    assert_eq!(msgs[1].role, "user");
    assert_eq!(msgs[1].content, "question");
}

#[test]
fn http_failure_quotes_at_most_five_hundred_characters() {
    let body = "x".repeat(600);
    match http_failure("agent", "500 Internal Server Error", &body) {
        Error::Eval(m) => {
            assert!(m.starts_with("agent returned HTTP 500 Internal Server Error: "));
            assert_eq!(m.len(), "agent returned HTTP 500 Internal Server Error: ".len() + 500);
        }
        other => panic!("unexpected error {other:?}"),
    }
}

#[test]
fn first_choice_content_takes_the_first() {
    assert_eq!(first_choice_content(vec![Some("a".into()), Some("b".into())]), Some("a".to_string()));
    assert_eq!(first_choice_content(vec![None, Some("b".into())]), None);
    assert_eq!(first_choice_content(vec![]), None);
}

#[test]
fn default_dataset_depends_on_orchestration() {
    let plain = default_eval_dataset(&AuraConfig::default());
    assert_eq!(plain.len(), 1);
    assert_eq!(plain.name, "default-eval");
    assert_eq!(plain.scenarios[0].name, "basic-diagnosis");
}

fn eval_message(r: Result<String, Error>) -> String {
    match r {
        Err(Error::Eval(m)) => m,
        other => panic!("unexpected {other:?}"),
    }
}

#[test]
fn aura_reply_reads_the_body_or_reports_the_status() {
    assert_eq!(aura_reply(true, "", r#"{"result": "done", "text": "no"}"#).unwrap(), "done");
    assert_eq!(aura_reply(true, "", "plain words").unwrap(), "plain words");
    assert_eq!(eval_message(aura_reply(false, "502 Bad Gateway", "oops")), "aura returned HTTP 502 Bad Gateway: oops");
}

#[test]
fn openai_reply_takes_the_first_choice() {
    let ok = openai_reply(true, "", "", Ok(vec![Some("first".to_string()), Some("second".to_string())]));
    assert_eq!(ok.unwrap(), "first");
    assert_eq!(eval_message(openai_reply(true, "", "", Ok(vec![None]))), "agent returned empty response");
    assert_eq!(eval_message(openai_reply(true, "", "", Ok(vec![]))), "agent returned empty response");
    assert_eq!(
        eval_message(openai_reply(true, "", "", Err("missing field `choices`".to_string()))),
        "failed to parse agent response: missing field `choices`"
    );
    let long = "x".repeat(600);
    let m = eval_message(openai_reply(false, "500 Internal Server Error", &long, Ok(vec![])));
    assert_eq!(m, format!("agent returned HTTP 500 Internal Server Error: {}", "x".repeat(500)));
}
