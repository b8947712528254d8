use aura_prompt_opt::config::schema::{
    default_evaluation_preamble, default_evaluation_prompt, default_phase_continuation_prompt,
    default_reflection_prompt, default_session_history_template, default_todo_system_prompt,
    default_todo_tool_prompt, default_worker_preamble, default_worker_task_prompt,
    default_max_planning_cycles, default_ollama_base_url, default_orchestrator_preamble,
    default_quality_threshold_bits, default_sanitize_schemas, default_synthesis_prompt,
    default_turn_depth, prompt_key_of, AgentConfig, AuraConfig, LlmConfig, OrchestrationConfig,
    OrchestrationPrompts, WorkerConfig, WorkerMap,
};

fn worker(description: &str, preamble: &str, filter: &str) -> WorkerConfig {
    WorkerConfig {
        description: description.to_string(),
        preamble: preamble.to_string(),
        mcp_filter: vec![filter.to_string()],
    }
}

#[test]
fn test_llm_config_provider_name() {
    let cfg = LlmConfig::OpenAI { api_key: "sk-test".into(), model: "gpt-4o".into(), base_url: None };
    assert_eq!(cfg.provider_name(), "openai");
    assert_eq!(cfg.model_name(), "gpt-4o");
}

#[test]
fn test_agent_config_default() {
    let cfg = AgentConfig::default();
    assert_eq!(cfg.name, "Assistant");
    assert_eq!(cfg.turn_depth, Some(5));
}

#[test]
fn agent_default_temperature_is_seven_tenths() {
    let cfg = AgentConfig::default();
    assert_eq!(cfg.temperature_bits, Some(0.7f64.to_bits()));
    assert_eq!(cfg.max_tokens, None);
}

#[test]
fn provider_names_of_every_provider() {
    let cases = vec![
        (LlmConfig::Anthropic { api_key: "k".into(), model: "sonnet".into(), base_url: None }, "anthropic", "sonnet"),
        (LlmConfig::Ollama { model: "llama3".into(), base_url: default_ollama_base_url() }, "ollama", "llama3"),
        (LlmConfig::Bedrock { model: "titan".into(), region: "us-east-1".into(), profile: None }, "bedrock", "titan"),
        (LlmConfig::Gemini { api_key: "k".into(), model: "gemini-pro".into(), base_url: None }, "gemini", "gemini-pro"),
    ];
    for (cfg, provider, model) in cases {
        assert_eq!(cfg.provider_name(), provider);
        assert_eq!(cfg.model_name(), model);
    }
}

#[test]
fn config_defaults_match_documented_values() {
    assert_eq!(default_ollama_base_url(), "http://localhost:11434");
    assert!(default_sanitize_schemas());
    assert_eq!(default_turn_depth(), Some(5));
    assert_eq!(default_max_planning_cycles(), 3);
    assert_eq!(default_quality_threshold_bits(), 0.8f32.to_bits());
}

#[test]
fn worker_map_insert_get_and_replace() {
    let mut map = WorkerMap::new();
    assert!(map.is_empty());
    assert!(!map.insert("database".to_string(), worker("SQL", "You are a database specialist.", "database")));
    assert!(!map.insert("monitoring".to_string(), worker("Metrics", "You watch metrics.", "monitoring")));
    assert_eq!(map.len(), 2);
    assert!(map.contains_key("database"));
    assert_eq!(map.get("monitoring").unwrap().preamble, "You watch metrics.");
    // Inserting an existing name replaces its entry and keeps the order.
    assert!(map.insert("database".to_string(), worker("SQL", "New preamble.", "database")));
    assert_eq!(map.len(), 2);
    assert_eq!(map.names(), vec!["database".to_string(), "monitoring".to_string()]);
    assert_eq!(map.get("database").unwrap().preamble, "New preamble.");
    assert!(map.set_preamble("monitoring", "Changed.".to_string()));
    assert!(!map.set_preamble("missing", "x".to_string()));
    assert_eq!(map.get("monitoring").unwrap().preamble, "Changed.");
}

#[test]
fn all_worker_names_lists_workers_then_other_singular_workers() {
    let mut workers = WorkerMap::new();
    workers.insert("database".to_string(), worker("SQL", "db", "database"));
    let mut singular = WorkerMap::new();
    singular.insert("database".to_string(), worker("SQL", "db2", "database"));
    singular.insert("logs".to_string(), worker("Logs", "logs", "logs"));
    let orch = OrchestrationConfig {
        enabled: true,
        max_planning_cycles: 3,
        quality_threshold_bits: 0.8f32.to_bits(),
        workers,
        worker: Some(singular),
        prompts: OrchestrationPrompts::default(),
    };
    assert_eq!(orch.all_worker_names(), vec!["database".to_string(), "logs".to_string()]);
}

#[test]
fn prompts_default_holds_the_eleven_embedded_prompts() {
    let prompts = OrchestrationPrompts::default();
    assert_eq!(prompts.len(), 11);
    assert_eq!(prompts.get_field("orchestrator_preamble").unwrap(), default_orchestrator_preamble());
    assert_eq!(
        prompts.get_field("orchestration.prompts.synthesis_prompt").unwrap(),
        default_synthesis_prompt()
    );
    assert!(prompts.get_field("no_such_prompt").is_none());
    let fields = prompts.fields();
    assert_eq!(fields.len(), 11);
    assert_eq!(fields[0].0, "orchestration.prompts.orchestrator_preamble");
}

#[test]
fn prompts_set_field_replaces_or_adds() {
    let mut prompts = OrchestrationPrompts::default();
    assert!(prompts.set_field("orchestration.prompts.synthesis_prompt", "New %%GOAL%%".to_string()));
    assert_eq!(prompts.get_field("synthesis_prompt").unwrap(), "New %%GOAL%%");
    assert_eq!(prompts.len(), 11);
    assert!(prompts.set_field("brand_new_prompt", "Fresh".to_string()));
    assert_eq!(prompts.len(), 12);
    assert_eq!(prompts.get_field("orchestration.prompts.brand_new_prompt").unwrap(), "Fresh");
}

#[test]
fn prompt_key_strips_the_prompt_prefix() {
    assert_eq!(prompt_key_of("orchestration.prompts.synthesis_prompt"), "synthesis_prompt");
    assert_eq!(prompt_key_of("synthesis_prompt"), "synthesis_prompt");
}

#[test]
fn test_orchestration_prompts_contain_expected_template_vars() {
    let config = AuraConfig {
        orchestration: Some(OrchestrationConfig {
            enabled: true,
            max_planning_cycles: 3,
            quality_threshold_bits: 0.8f32.to_bits(),
            workers: WorkerMap::new(),
            worker: None,
            prompts: OrchestrationPrompts::default(),
        }),
        ..AuraConfig::default()
    };
    let prompts = &config.orchestration.as_ref().unwrap().prompts;

    assert!(prompts.get_field("orchestrator_preamble").unwrap().contains("{{tools_section}}"));
    assert!(prompts.get_field("orchestrator_preamble").unwrap().contains("{{orchestration_system_prompt}}"));
    assert!(prompts.get_field("worker_preamble").unwrap().contains("{{worker_system_prompt}}"));
    assert!(prompts.get_field("worker_task_prompt").unwrap().contains("%%YOUR_TASK%%"));
    assert!(prompts.get_field("synthesis_prompt").unwrap().contains("%%GOAL%%"));
    assert!(prompts.get_field("synthesis_prompt").unwrap().contains("%%QUERY%%"));
    assert!(prompts.get_field("synthesis_prompt").unwrap().contains("%%RESULTS%%"));
    assert!(prompts.get_field("evaluation_prompt").unwrap().contains("%%QUERY%%"));
    assert!(prompts.get_field("evaluation_prompt").unwrap().contains("%%RESULT%%"));
    assert!(prompts.get_field("reflection_prompt").unwrap().contains("%%ITERATION%%"));
    assert!(prompts.get_field("phase_continuation_prompt").unwrap().contains("%%GOAL%%"));
    assert!(prompts.get_field("session_history_template").unwrap().contains("%%TURN_ENTRIES%%"));
}

#[test]
fn test_public_api_re_exports() {
    let _ = std::mem::size_of::<AuraConfig>();
    let _ = std::mem::size_of::<aura_prompt_opt::eval::scenario::EvalDataset>();
    let _ = std::mem::size_of::<aura_prompt_opt::eval::scenario::EvalScenario>();
    let _ = std::mem::size_of::<aura_prompt_opt::optimizer::run::OptimizationResult>();
    let _ = std::mem::size_of::<aura_prompt_opt::optimizer::field::OptimizableField>();
}

#[test]
fn default_prompt_functions_match_the_embedded_prompts() {
    let prompts = OrchestrationPrompts::default();
    let cases: Vec<(&str, String)> = vec![
        ("orchestrator_preamble", default_orchestrator_preamble()),
        ("worker_preamble", default_worker_preamble()),
        ("worker_task_prompt", default_worker_task_prompt()),
        ("synthesis_prompt", default_synthesis_prompt()),
        ("evaluation_preamble", default_evaluation_preamble()),
        ("evaluation_prompt", default_evaluation_prompt()),
        ("reflection_prompt", default_reflection_prompt()),
        ("phase_continuation_prompt", default_phase_continuation_prompt()),
        ("session_history_template", default_session_history_template()),
        ("todo_system_prompt", default_todo_system_prompt()),
        ("todo_tool_prompt", default_todo_tool_prompt()),
    ];
    for (name, text) in cases {
        assert_eq!(prompts.get_field(name).unwrap(), text, "prompt {name}");
        assert!(!text.is_empty());
    }
}
