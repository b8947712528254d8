use aura_prompt_opt::config::schema::{
    AgentConfig, AuraConfig, LlmConfig, OrchestrationConfig, OrchestrationPrompts, WorkerConfig,
    WorkerMap,
};
use aura_prompt_opt::error::Error;
use aura_prompt_opt::eval::agent_runner::StubAgentRunner;
use aura_prompt_opt::eval::metrics::exact_match;
use aura_prompt_opt::eval::scenario::{EvalDataset, EvalScenario};
use aura_prompt_opt::optimizer::bootstrap::{BootstrapAction, BootstrapFewShot, BootstrapRun};
use aura_prompt_opt::optimizer::field::OptimizableField;
use aura_prompt_opt::optimizer::instruction_search::{
    InstructionAction, InstructionEvent, InstructionOptimizer, InstructionRun, InstructionStage,
};
use aura_prompt_opt::optimizer::mipro::{MiproOptimizer, MiproRun};
use aura_prompt_opt::optimizer::run::{
    apply_edits, sort_candidates, Edit, Evaluation, OptimizationResult, Rationale, ScenarioOutcome,
    ScoredCandidate,
};
use aura_prompt_opt::pipeline::{AuraOptimizer, PipelineAction, PipelineRun};

fn agent(name: &str, prompt: &str) -> AuraConfig {
    AuraConfig {
        agent: AgentConfig { name: name.into(), system_prompt: prompt.into(), ..AgentConfig::default() },
        ..AuraConfig::default()
    }
}

fn orchestration_config() -> AuraConfig {
    let mut workers = WorkerMap::new();
    workers.insert(
        "database".to_string(),
        WorkerConfig {
            description: "Executes SQL queries".into(),
            preamble: "You are a database specialist.".into(),
            mcp_filter: vec!["database".into()],
        },
    );
    AuraConfig {
        llm: LlmConfig::Anthropic { api_key: "sk-test".into(), model: "sonnet-4-6".into(), base_url: None },
        agent: AgentConfig {
            name: "Platform Agent".into(),
            system_prompt: "You are a platform engineering agent.".into(),
            turn_depth: Some(20),
            ..AgentConfig::default()
        },
        orchestration: Some(OrchestrationConfig {
            enabled: true,
            max_planning_cycles: 3,
            quality_threshold_bits: 0.8f32.to_bits(),
            workers,
            worker: None,
            prompts: OrchestrationPrompts::default(),
        }),
        ..AuraConfig::default()
    }
}

/// Evaluates the configuration that `edits` make of `base` with the stub
/// agent and the exact-match metric.
fn stub_exact(base: &AuraConfig, edits: &Vec<Edit>, dataset: &EvalDataset, run: usize, threshold: f64) -> Evaluation {
    let mut config = base.clone();
    apply_edits(&mut config, edits);
    let runner = StubAgentRunner::new();
    let mut outcomes = Vec::new();
    let mut total = 0.0;
    for s in &dataset.scenarios {
        let output = runner.respond(&config, &s.input);
        let score = if exact_match(s, &output) { 1.0 } else { 0.0 };
        total += score;
        outcomes.push(ScenarioOutcome {
            input: s.input.clone(),
            output,
            score_bits: f64::to_bits(score),
            score_label: format!("{score:.2}"),
            passed: score >= threshold,
        });
    }
    let average = if outcomes.is_empty() { 0.0 } else { total / outcomes.len() as f64 };
    Evaluation { run, outcomes, average_bits: average.to_bits() }
}

/// Scores 1.0 when the system prompt holds `word`, else 0.0.
fn by_word(base: &AuraConfig, edits: &Vec<Edit>, word: &str, run: usize) -> Evaluation {
    let mut config = base.clone();
    apply_edits(&mut config, edits);
    let score: f64 = if config.agent.system_prompt.contains(word) { 1.0 } else { 0.0 };
    Evaluation {
        run,
        outcomes: vec![ScenarioOutcome {
            input: "q".into(),
            output: "a".into(),
            score_bits: score.to_bits(),
            score_label: format!("{score:.2}"),
            passed: score >= 0.7,
        }],
        average_bits: score.to_bits(),
    }
}

fn run_bootstrap(bfs: BootstrapFewShot, config: &AuraConfig, dataset: &EvalDataset, threshold: f64) -> OptimizationResult {
    let (mut run, mut action) = BootstrapRun::start(bfs, config, Vec::new());
    let mut count = 0;
    loop {
        match action {
            BootstrapAction::Evaluate(edits) => {
                let ev = stub_exact(config, &edits, dataset, count, threshold);
                count += 1;
                let (next, a) = run.step(ev);
                run = next;
                action = a;
            }
            BootstrapAction::Finish(result) => return result,
        }
    }
}

fn best_config(base: &AuraConfig, result: &OptimizationResult) -> AuraConfig {
    let mut config = base.clone();
    apply_edits(&mut config, &result.best_edits);
    config
}

#[test]
fn test_bootstrap_no_passing_examples() {
    let config = agent("Test", "You are an assistant.");
    let dataset = EvalDataset::new("test")
        .add(EvalScenario::new("s1", "hello").with_expected("exact_match_impossible_xyz"));
    let bfs = BootstrapFewShot::new().with_pass_threshold_bits(1.0f64.to_bits());

    let result = run_bootstrap(bfs, &config, &dataset, 0.7);
    assert_eq!(best_config(&config, &result).agent.system_prompt, "You are an assistant.");
    assert_eq!(result.optimization_log.len(), 0);
}

#[test]
fn test_bootstrap_with_passing_examples() {
    let config = agent("Test", "You are an assistant.");
    let stub_output = "[STUB] Agent 'Test' received: hello";
    let dataset = EvalDataset::new("test").add(EvalScenario::new("s1", "hello").with_expected(stub_output));
    let bfs = BootstrapFewShot::new().with_pass_threshold_bits(1.0f64.to_bits()).with_max_examples(3);

    let result = run_bootstrap(bfs, &config, &dataset, 1.0);
    assert_eq!(result.optimization_log.len(), 1);
    assert!(result.optimization_log[0].after.contains("## Examples"));
}

#[test]
fn bootstrap_result_has_exact_shape() {
    let config = agent("Test", "You are an assistant.  ");
    let stub_output = "[STUB] Agent 'Test' received: hello";
    let dataset = EvalDataset::new("test").add(EvalScenario::new("s1", "hello").with_expected(stub_output));
    let result = run_bootstrap(BootstrapFewShot::new(), &config, &dataset, 0.7);
    let entry = &result.optimization_log[0];
    assert_eq!(entry.optimizer, "BootstrapFewShot");
    assert_eq!(entry.field, "agent.system_prompt");
    assert_eq!(entry.before, "You are an assistant.  ");
    assert_eq!(
        entry.after,
        format!("You are an assistant.\n\n## Examples\n\nUser: hello\nAssistant: {stub_output}")
    );
    assert_eq!(entry.rationale, Rationale::FewShot { examples: 1 });
    assert_eq!(result.candidates.len(), 2);
    assert_eq!(result.candidates[0].notes, vec!["Baseline config".to_string()]);
    assert_eq!(result.candidates[1].notes, vec!["After BootstrapFewShot injection".to_string()]);
    // Equal scores keep the injected prompt.
    assert_eq!(result.best_score_bits, 1.0f64.to_bits());
    assert_eq!(best_config(&config, &result).agent.system_prompt, entry.after);
}

#[test]
fn test_bootstrap_no_examples_returns_baseline() {
    let config = agent("SRE Agent", "You are an SRE agent. Help with incidents.");
    let dataset = EvalDataset::new("test")
        .add(EvalScenario::new("s1", "what happened?").with_expected("impossible_exact_match_xyz"));
    let bfs = BootstrapFewShot::new().with_pass_threshold_bits(1.0f64.to_bits());
    let result = run_bootstrap(bfs, &config, &dataset, 0.7);
    assert_eq!(best_config(&config, &result).agent.system_prompt, config.agent.system_prompt);
    assert_eq!(result.candidates[0].notes, vec!["No passing examples found; returning baseline config.".to_string()]);
}

#[test]
fn test_bootstrap_with_orchestration_field() {
    let config = orchestration_config();
    let stub_output = "[STUB] Agent 'Platform Agent' received: hello";
    let dataset = EvalDataset::new("test").add(EvalScenario::new("s1", "hello").with_expected(stub_output));
    let bfs = BootstrapFewShot::new()
        .with_pass_threshold_bits(1.0f64.to_bits())
        .with_max_examples(3)
        .with_target_field(OptimizableField::OrchestrationPrompt(
            "orchestration.prompts.orchestrator_preamble".into(),
        ));

    let result = run_bootstrap(bfs, &config, &dataset, 1.0);
    assert_eq!(result.optimization_log.len(), 1);
    assert_eq!(result.optimization_log[0].field, "orchestration.prompts.orchestrator_preamble");
    assert!(result.optimization_log[0].after.contains("## Examples"));
}

fn drive_instruction(
    config: &AuraConfig,
    opt: InstructionOptimizer,
    word: &str,
    replies: &mut Vec<String>,
    asked: &mut Vec<String>,
) -> InstructionAction {
    let (mut run, mut action) = InstructionRun::start(opt, config, Vec::new());
    let mut count = 0;
    loop {
        match action {
            InstructionAction::Evaluate(edits) => {
                assert!(run.awaits_evaluation());
                let ev = by_word(config, &edits, word, count);
                count += 1;
                let (next, a) = run.step(InstructionEvent::Evaluated(ev));
                run = next;
                action = a;
            }
            InstructionAction::Ask(messages) => {
                assert!(run.awaits_reply());
                assert_eq!(messages.len(), 2);
                assert_eq!(messages[0].role, "system");
                asked.push(messages[1].content.clone());
                let reply = replies.remove(0);
                let (next, a) = run.step(InstructionEvent::Replied(reply));
                run = next;
                action = a;
            }
            done => {
                assert_eq!(run.stage(), InstructionStage::Finished);
                return done;
            }
        }
    }
}

#[test]
fn instruction_search_keeps_the_best_candidate() {
    let config = agent("A", "plain prompt");
    let mut replies = vec!["[\"worse one\", \"better one\"]".to_string()];
    let mut asked = Vec::new();
    let action = drive_instruction(&config, InstructionOptimizer::new(), "better", &mut replies, &mut asked);
    let result = match action {
        InstructionAction::Finish(r) => r,
        other => panic!("unexpected {other:?}"),
    };
    assert_eq!(asked.len(), 1);
    assert!(asked[0].contains("Failed scenarios:\nInput: q\nOutput: a\nScore: 0.00"));
    assert_eq!(result.baseline_score_bits, 0.0f64.to_bits());
    assert_eq!(result.best_score_bits, 1.0f64.to_bits());
    assert_eq!(best_config(&config, &result).agent.system_prompt, "better one");
    assert_eq!(result.candidates.len(), 3);
    assert_eq!(result.candidates[0].score_bits, 1.0f64.to_bits());
    assert_eq!(result.candidates[1].notes, vec!["Baseline".to_string()]);
    assert_eq!(result.optimization_log.len(), 1);
    let entry = &result.optimization_log[0];
    assert_eq!(entry.optimizer, "InstructionOptimizer");
    assert_eq!(entry.before, "plain prompt");
    assert_eq!(entry.after, "better one");
    assert_eq!(entry.rationale, Rationale::Instruction { proposed: 2 });
    assert_eq!(
        entry.alternatives,
        vec![("plain prompt".to_string(), 0.0f64.to_bits()), ("worse one".to_string(), 0.0f64.to_bits())]
    );
}

#[test]
fn instruction_search_stops_when_everything_passes() {
    let config = agent("A", "better already");
    let mut replies = Vec::new();
    let mut asked = Vec::new();
    let action = drive_instruction(&config, InstructionOptimizer::new(), "better", &mut replies, &mut asked);
    match action {
        InstructionAction::Finish(r) => {
            assert!(asked.is_empty());
            assert_eq!(r.candidates.len(), 1);
            assert_eq!(
                r.candidates[0].notes,
                vec!["All scenarios passed; no instruction changes needed.".to_string()]
            );
            assert!(r.optimization_log.is_empty());
        }
        other => panic!("unexpected {other:?}"),
    }
}

#[test]
fn instruction_search_fails_on_unreadable_reply() {
    let config = agent("A", "plain");
    let mut replies = vec!["no json here".to_string()];
    let mut asked = Vec::new();
    match drive_instruction(&config, InstructionOptimizer::new(), "better", &mut replies, &mut asked) {
        InstructionAction::Fail(Error::LlmResponse(m)) => {
            assert!(m.starts_with("failed to parse candidate prompts: "))
        }
        other => panic!("unexpected {other:?}"),
    }
}

#[test]
fn instruction_search_skips_candidates_that_drop_placeholders() {
    let config = orchestration_config();
    let field = OptimizableField::OrchestrationPrompt("orchestration.prompts.synthesis_prompt".into());
    let opt = InstructionOptimizer::new().with_target_fields(vec![field]);
    let mut replies = vec!["[\"no placeholders\"]".to_string()];
    let mut asked = Vec::new();
    match drive_instruction(&config, opt, "never", &mut replies, &mut asked) {
        InstructionAction::Finish(r) => {
            assert_eq!(r.candidates.len(), 1);
            assert!(r.optimization_log.is_empty());
            assert!(asked[0].contains("CRITICAL: This is a template prompt"));
        }
        other => panic!("unexpected {other:?}"),
    }
}

#[test]
fn mipro_runs_rounds_and_tags_them() {
    let config = agent("A", "plain prompt");
    let opt = MiproOptimizer::new().with_rounds(2);
    let (mut run, mut action) = MiproRun::start(opt, &config, Vec::new());
    let mut replies = vec!["[\"better one\"]".to_string()];
    let mut count = 0;
    let result = loop {
        match action {
            InstructionAction::Evaluate(edits) => {
                assert!(run.awaits_evaluation());
                let ev = by_word(&config, &edits, "better", count);
                count += 1;
                let (next, a) = run.step(InstructionEvent::Evaluated(ev));
                run = next;
                action = a;
            }
            InstructionAction::Ask(_) => {
                assert!(run.awaits_reply());
                let (next, a) = run.step(InstructionEvent::Replied(replies.remove(0)));
                run = next;
                action = a;
            }
            InstructionAction::Finish(r) => break r,
            InstructionAction::Fail(e) => panic!("failed: {e:?}"),
        }
    };
    assert_eq!(result.best_score_bits, 1.0f64.to_bits());
    assert_eq!(best_config(&config, &result).agent.system_prompt, "better one");
    assert_eq!(result.optimization_log.len(), 1);
    assert_eq!(result.optimization_log[0].optimizer, "MIPRO(round=1)/InstructionOptimizer");
    assert!(result.candidates.iter().any(|c| c.notes.last() == Some(&"MIPRO round 2".to_string())));
    assert!(result.candidates.iter().any(|c| c.notes == vec!["Initial baseline (MIPRO round 0)".to_string()]));
    assert_eq!(result.candidates[0].score_bits, 1.0f64.to_bits());
}

#[test]
fn pipeline_bootstraps_then_searches() {
    let config = agent("A", "plain prompt");
    let opt = AuraOptimizer::new();
    let (mut run, mut action) = PipelineRun::start(&opt, &config);
    let mut replies = vec!["[\"better one\"]".to_string()];
    let mut count = 0;
    let outcome = loop {
        match action {
            PipelineAction::Evaluate(edits) => {
                let ev = by_word(&config, &edits, "better", count);
                count += 1;
                let (next, a) = run.step(InstructionEvent::Evaluated(ev));
                run = next;
                action = a;
            }
            PipelineAction::Ask(_) => {
                assert!(run.awaits_reply());
                let (next, a) = run.step(InstructionEvent::Replied(replies.remove(0)));
                run = next;
                action = a;
            }
            PipelineAction::Finish(o) => break o,
            PipelineAction::Fail(e) => panic!("failed: {e:?}"),
        }
    };
    assert_eq!(outcome.baseline_score_bits, 0.0f64.to_bits());
    assert_eq!(outcome.best_score_bits, 1.0f64.to_bits());
    assert_eq!(outcome.log.len(), 1);
    assert_eq!(outcome.log[0].optimizer, "InstructionOptimizer");
    let mut final_config = config.clone();
    apply_edits(&mut final_config, &outcome.best_edits);
    assert_eq!(final_config.agent.system_prompt, "better one");
}

#[test]
fn sorting_is_stable_and_descending() {
    let c = |score: f64, run: usize| ScoredCandidate { edits: Vec::new(), score_bits: score.to_bits(), run, notes: Vec::new() };
    let sorted = sort_candidates(vec![c(0.5, 0), c(0.9, 1), c(0.5, 2), c(1.0, 3), c(0.0, 4)]);
    let runs: Vec<usize> = sorted.iter().map(|x| x.run).collect();
    assert_eq!(runs, vec![3, 1, 0, 2, 4]);
}
