use aura_prompt_opt::config::schema::{
    AgentConfig, AuraConfig, LlmConfig, OrchestrationConfig, OrchestrationPrompts, WorkerConfig,
    WorkerMap,
};
use aura_prompt_opt::error::Error;
use aura_prompt_opt::optimizer::bootstrap::{build_few_shot_block, few_shot_prompt, reaches_threshold, BootstrapFewShot};
use aura_prompt_opt::optimizer::fences::strip_code_fences;
use aura_prompt_opt::optimizer::field::{targets_orchestration, OptimizableField};
use aura_prompt_opt::optimizer::instruction::{
    build_optimization_prompt, candidate_admissible, parse_candidate_prompts, templates_preserved,
};
use aura_prompt_opt::optimizer::instruction_search::InstructionOptimizer;
use aura_prompt_opt::optimizer::mipro::MiproOptimizer;
use aura_prompt_opt::optimizer::run::{apply_edits, read_edited, Edit};
use aura_prompt_opt::template::extract_template_vars;

fn worker(description: &str, preamble: &str, filter: &str) -> WorkerConfig {
    WorkerConfig {
        description: description.to_string(),
        preamble: preamble.to_string(),
        mcp_filter: vec![filter.to_string()],
    }
}

/// The orchestration configuration of the platform agent used throughout.
fn orchestration_config() -> AuraConfig {
    let mut workers = WorkerMap::new();
    workers.insert("database".to_string(), worker("Executes SQL queries", "You are a database specialist.", "database"));
    workers.insert("monitoring".to_string(), worker("Queries metrics and logs", "You are a monitoring specialist.", "monitoring"));
    AuraConfig {
        llm: LlmConfig::Anthropic {
            api_key: "sk-test".into(),
            model: "sonnet-4-6".into(),
            base_url: None,
        },
        agent: AgentConfig {
            name: "Platform Agent".into(),
            system_prompt: "You are a platform engineering agent.".into(),
            turn_depth: Some(20),
            ..AgentConfig::default()
        },
        orchestration: Some(OrchestrationConfig {
            enabled: true,
            max_planning_cycles: 3,
            quality_threshold_bits: 0.8f32.to_bits(),
            workers,
            worker: None,
            prompts: OrchestrationPrompts::default(),
        }),
        ..AuraConfig::default()
    }
}

fn sre_config() -> AuraConfig {
    AuraConfig {
        llm: LlmConfig::OpenAI { api_key: "sk-test".into(), model: "gpt-4o".into(), base_url: None },
        agent: AgentConfig {
            name: "SRE Agent".into(),
            system_prompt: "You are an SRE agent. Help with incidents.".into(),
            turn_depth: Some(20),
            ..AgentConfig::default()
        },
        ..AuraConfig::default()
    }
}

#[test]
fn test_templates_preserved_percent_vars() {
    let original = "Goal: %%GOAL%%\nQuery: %%QUERY%%\nResults: %%RESULTS%%";
    let good = "Improved preamble.\nGoal: %%GOAL%%\nQuery: %%QUERY%%\nResults: %%RESULTS%%";
    let bad = "Improved preamble.\nGoal: %%GOAL%%\nQuery: %%QUERY%%";
    assert!(templates_preserved(original, good));
    assert!(!templates_preserved(original, bad));
}

#[test]
fn test_templates_preserved_mustache_vars() {
    let original = "Tools: {{tools_section}}\nPrompt: {{orchestration_system_prompt}}";
    let good = "Better intro.\nTools: {{tools_section}}\nPrompt: {{orchestration_system_prompt}}";
    let bad = "Better intro.\nTools: {{tools_section}}";
    assert!(templates_preserved(original, good));
    assert!(!templates_preserved(original, bad));
}

#[test]
fn test_templates_preserved_no_vars() {
    let original = "Just a plain prompt with no variables.";
    let candidate = "A completely different prompt.";
    assert!(templates_preserved(original, candidate));
}

#[test]
fn templates_preserved_is_reflexive_on_a_template() {
    let t = "A %%X%% and {{y}} and %%Z%%";
    assert!(templates_preserved(t, t));
    assert!(templates_preserved(t, &format!("prefix {t} suffix")));
}

#[test]
fn template_vars_are_listed_once_in_order() {
    let vars = extract_template_vars("%%B%% then {{a}} then %%B%% and %%C%%");
    assert_eq!(vars, vec!["%%B%%".to_string(), "%%C%%".to_string(), "{{a}}".to_string()]);
}

#[test]
fn test_build_optimization_prompt_includes_template_warning() {
    let field = OptimizableField::OrchestrationPrompt("orchestration.prompts.synthesis_prompt".into());
    let prompt = build_optimization_prompt(&field, "test %%GOAL%%", "failures", 3);
    assert!(prompt.contains("CRITICAL: This is a template prompt"));
    assert!(prompt.contains("%%VARIABLE_NAME%%"));
}

#[test]
fn test_build_optimization_prompt_no_template_warning_for_agent() {
    let field = OptimizableField::AgentSystemPrompt;
    let prompt = build_optimization_prompt(&field, "test prompt", "failures", 3);
    assert!(!prompt.contains("CRITICAL: This is a template prompt"));
}

#[test]
fn optimization_prompt_has_exact_opening() {
    let prompt = build_optimization_prompt(&OptimizableField::AgentSystemPrompt, "cur", "fail", 12);
    assert!(prompt.starts_with(
        "You are a prompt engineer. Analyze these agent failures and propose 12 improved versions of the prompt field `agent.system_prompt`.\n\nField description: The agent's main system prompt\n\nCurrent prompt:\ncur\n\nFailed scenarios:\nfail\n\nReturn a JSON array of 12 improved prompts."
    ));
}

#[test]
fn test_parse_candidate_prompts_valid() {
    let response = r#"["prompt one", "prompt two", "prompt three"]"#;
    let prompts = parse_candidate_prompts(response).unwrap();
    assert_eq!(prompts.len(), 3);
    assert_eq!(prompts[0], "prompt one");
}

#[test]
fn test_parse_candidate_prompts_with_markdown() {
    let response = "```json\n[\"p1\", \"p2\"]\n```";
    let prompts = parse_candidate_prompts(response).unwrap();
    assert_eq!(prompts.len(), 2);
}

#[test]
fn test_parse_candidate_prompts_invalid() {
    let response = "not json at all";
    assert!(parse_candidate_prompts(response).is_err());
}

#[test]
fn unreadable_candidates_give_an_llm_response_error() {
    match parse_candidate_prompts("[1, 2]") {
        Err(Error::LlmResponse(m)) => assert!(m.starts_with("failed to parse candidate prompts: ")),
        other => panic!("unexpected {other:?}"),
    }
}

#[test]
fn code_fences_are_stripped() {
    assert_eq!(strip_code_fences("```json\n[1]\n```"), "[1]");
    assert_eq!(strip_code_fences("```\n[2]\n```"), "[2]");
    assert_eq!(strip_code_fences("  [3]  "), "[3]");
}

#[test]
fn candidate_admissibility_checks_templates_only() {
    let t = OptimizableField::OrchestrationPrompt("orchestration.prompts.synthesis_prompt".into());
    assert!(candidate_admissible(&t, "Goal %%GOAL%%", "New %%GOAL%%"));
    assert!(!candidate_admissible(&t, "Goal %%GOAL%%", "New"));
    assert!(candidate_admissible(&OptimizableField::AgentSystemPrompt, "Goal %%GOAL%%", "New"));
}

#[test]
fn few_shot_block_and_prompt_have_exact_form() {
    let block = build_few_shot_block(&vec![("hi".to_string(), "hello".to_string()), ("a".to_string(), "b".to_string())]);
    assert_eq!(block, "## Examples\n\nUser: hi\nAssistant: hello\n\nUser: a\nAssistant: b");
    assert_eq!(few_shot_prompt("Base prompt.  \n", &block), format!("Base prompt.\n\n{block}"));
}

#[test]
fn test_bootstrap_target_field_default() {
    let bfs = BootstrapFewShot::new();
    assert_eq!(bfs.target_field, OptimizableField::AgentSystemPrompt);
}

#[test]
fn test_bootstrap_target_field_override() {
    let bfs = BootstrapFewShot::new().with_target_field(OptimizableField::OrchestrationPrompt(
        "orchestration.prompts.orchestrator_preamble".into(),
    ));
    assert_eq!(bfs.target_field.field_path(), "orchestration.prompts.orchestrator_preamble");
}

#[test]
fn bootstrap_defaults() {
    let bfs = BootstrapFewShot::default();
    assert_eq!(bfs.pass_threshold_bits, 0.7f64.to_bits());
    assert_eq!(bfs.max_examples, 5);
    let changed = bfs.with_max_examples(3).with_pass_threshold_bits(1.0f64.to_bits());
    assert_eq!(changed.max_examples, 3);
    assert_eq!(changed.pass_threshold_bits, 1.0f64.to_bits());
}

#[test]
fn test_mipro_builder() {
    let opt = MiproOptimizer::new().with_rounds(2).with_candidates_per_round(4);
    assert_eq!(opt.num_rounds, 2);
    assert_eq!(opt.candidates_per_round, 4);
}

#[test]
fn test_mipro_target_fields_default() {
    let opt = MiproOptimizer::new();
    assert_eq!(opt.target_fields.len(), 1);
    assert_eq!(opt.target_fields[0], OptimizableField::AgentSystemPrompt);
}

#[test]
fn instruction_optimizer_builder() {
    let opt = InstructionOptimizer::new();
    assert_eq!(opt.num_candidates, 3);
    assert_eq!(opt.target_fields, vec![OptimizableField::AgentSystemPrompt]);
    let all = InstructionOptimizer::new().with_num_candidates(5).with_all_fields(&orchestration_config());
    assert_eq!(all.num_candidates, 5);
    assert_eq!(all.target_fields.len(), 14);
}

#[test]
fn test_optimizable_field_all_fields_with_orchestration() {
    let config = orchestration_config();
    let fields = OptimizableField::all_fields(&config);

    assert_eq!(fields.len(), 14);
    assert!(fields.iter().any(|f| matches!(f, OptimizableField::AgentSystemPrompt)));
    assert!(fields.iter().any(|f| {
        matches!(f, OptimizableField::OrchestrationPrompt(p) if p == "orchestration.prompts.orchestrator_preamble")
    }));
    assert!(fields.iter().any(|f| {
        matches!(f, OptimizableField::OrchestrationPrompt(p) if p == "orchestration.prompts.synthesis_prompt")
    }));
    assert!(fields.iter().any(|f| {
        matches!(f, OptimizableField::OrchestrationPrompt(p) if p == "orchestration.prompts.evaluation_prompt")
    }));
    assert!(fields.iter().any(|f| matches!(f, OptimizableField::WorkerPreamble(n) if n == "database")));
    assert!(fields.iter().any(|f| matches!(f, OptimizableField::WorkerPreamble(n) if n == "monitoring")));
    assert!(targets_orchestration(&fields));
}

#[test]
fn test_optimizable_field_get_set_orchestration_prompt() {
    let mut config = orchestration_config();
    let field = OptimizableField::OrchestrationPrompt("orchestration.prompts.synthesis_prompt".to_string());

    let original = field.get_value(&config).unwrap().to_string();
    assert!(original.contains("%%GOAL%%"));

    let new_value = "Improved synthesis prompt with %%GOAL%% and %%QUERY%%".to_string();
    assert!(field.set_value(&mut config, new_value.clone()));

    let updated = field.get_value(&config).unwrap();
    assert_eq!(updated, new_value);
}

#[test]
fn test_optimizable_field_get_set_worker_preamble() {
    let mut config = orchestration_config();
    let field = OptimizableField::WorkerPreamble("database".to_string());

    let original = field.get_value(&config).unwrap();
    assert_eq!(original, "You are a database specialist.");

    let new_value = "You are an expert database administrator with deep PostgreSQL knowledge.".to_string();
    assert!(field.set_value(&mut config, new_value.clone()));

    let updated = field.get_value(&config).unwrap();
    assert_eq!(updated, new_value);
}

#[test]
fn setting_a_missing_worker_changes_nothing() {
    let mut config = orchestration_config();
    let field = OptimizableField::WorkerPreamble("ghost".to_string());
    assert!(!field.set_value(&mut config, "x".to_string()));
    assert!(field.get_value(&config).is_none());
    assert_eq!(
        OptimizableField::WorkerPreamble("database".into()).get_value(&config).unwrap(),
        "You are a database specialist."
    );
}

#[test]
fn test_all_fields_without_orchestration() {
    let config = sre_config();
    let fields = OptimizableField::all_fields(&config);
    assert_eq!(fields.len(), 1);
    assert!(matches!(fields[0], OptimizableField::AgentSystemPrompt));
    assert!(!targets_orchestration(&fields));
}

#[test]
fn test_dynamic_prompts_auto_discovered_in_all_fields() {
    let mut config = orchestration_config();
    if let Some(ref mut orch) = config.orchestration {
        orch.prompts.set_field("brand_new_prompt", "A future prompt with %%SOME_VAR%%".into());
    }

    let fields = OptimizableField::all_fields(&config);
    assert!(fields.iter().any(|f| {
        matches!(f, OptimizableField::OrchestrationPrompt(p) if p == "orchestration.prompts.brand_new_prompt")
    }));

    let new_field = OptimizableField::OrchestrationPrompt("orchestration.prompts.brand_new_prompt".into());
    assert_eq!(new_field.get_value(&config).unwrap(), "A future prompt with %%SOME_VAR%%");
}

#[test]
fn field_paths_and_descriptions() {
    assert_eq!(OptimizableField::AgentSystemPrompt.field_path(), "agent.system_prompt");
    assert_eq!(
        OptimizableField::WorkerPreamble("db".into()).field_path(),
        "orchestration.workers.db.preamble"
    );
    assert_eq!(OptimizableField::AgentSystemPrompt.description(), "The agent's main system prompt");
    assert!(!OptimizableField::AgentSystemPrompt.is_template());
    assert!(OptimizableField::WorkerPreamble("db".into()).is_template());
}

#[test]
fn description_for_uses_the_first_heading() {
    let config = orchestration_config();
    let field = OptimizableField::OrchestrationPrompt("orchestration.prompts.orchestrator_preamble".into());
    assert_eq!(field.description_for(&config), "Orchestration Coordinator");
    assert_eq!(
        OptimizableField::WorkerPreamble("database".into()).description_for(&config),
        "Worker preamble for 'database'"
    );
    let missing = OptimizableField::OrchestrationPrompt("orchestration.prompts.nothing".into());
    assert_eq!(missing.description_for(&config), "orchestration.prompts.nothing");
}

#[test]
fn edits_apply_in_order_and_last_wins() {
    let base = orchestration_config();
    let edits = vec![
        Edit { field: OptimizableField::AgentSystemPrompt, value: "first".into() },
        Edit { field: OptimizableField::WorkerPreamble("database".into()), value: "db".into() },
        Edit { field: OptimizableField::AgentSystemPrompt, value: "second".into() },
    ];
    let mut config = base.clone();
    apply_edits(&mut config, &edits);
    assert_eq!(config.agent.system_prompt, "second");
    assert_eq!(
        OptimizableField::WorkerPreamble("database".into()).get_value(&config).unwrap(),
        "db"
    );
    assert_eq!(read_edited(&base, &edits, &OptimizableField::AgentSystemPrompt), Some("second".to_string()));
    assert_eq!(
        read_edited(&base, &edits, &OptimizableField::WorkerPreamble("monitoring".into())),
        Some("You are a monitoring specialist.".to_string())
    );
}

#[test]
fn setting_a_new_prompt_name_succeeds_and_stores_it() {
    let mut config = orchestration_config();
    let field = OptimizableField::OrchestrationPrompt("orchestration.prompts.brand_new_prompt".to_string());
    assert!(field.get_value(&config).is_none());
    assert!(field.set_value(&mut config, "Fresh %%X%%".to_string()));
    assert_eq!(field.get_value(&config).unwrap(), "Fresh %%X%%");
}

#[test]
fn setting_a_prompt_without_orchestration_fails_and_changes_nothing() {
    let mut config = sre_config();
    let before = OptimizableField::AgentSystemPrompt.get_value(&config).unwrap().to_string();
    let field = OptimizableField::OrchestrationPrompt("orchestration.prompts.synthesis_prompt".to_string());
    assert!(!field.set_value(&mut config, "x".to_string()));
    assert!(field.get_value(&config).is_none());
    assert_eq!(OptimizableField::AgentSystemPrompt.get_value(&config).unwrap(), before);
}

#[test]
fn thresholds_compare_as_floats() {
    let one = 1.0f64.to_bits();
    let zero = 0.0f64.to_bits();
    assert!(reaches_threshold(one, 0.7f64.to_bits()));
    assert!(!reaches_threshold(0.5f64.to_bits(), 0.7f64.to_bits()));
    assert!(reaches_threshold(one, one));
    assert!(reaches_threshold(zero, (-0.5f64).to_bits()));
    assert!(reaches_threshold(zero, (-0.0f64).to_bits()));
    assert!(reaches_threshold(zero, f64::NEG_INFINITY.to_bits()));
    assert!(!reaches_threshold(one, f64::NAN.to_bits()));
    assert!(!reaches_threshold(one, (-f64::NAN).to_bits()));
    assert!(!reaches_threshold(one, f64::INFINITY.to_bits()));
    assert!(reaches_threshold(f64::INFINITY.to_bits(), f64::INFINITY.to_bits()));
}
