use aura_prompt_opt::compiler::{annotate_toml, format_annotation, should_annotate, Annotation};

fn annotation(field: &str) -> Annotation {
    Annotation {
        optimizer: "BootstrapFewShot".into(),
        field: field.into(),
        rationale: "Few-shot examples improved clarity.".into(),
        before: "old".into(),
        after: "new".into(),
        score_before: "0.450".into(),
        score_after: "0.820".into(),
        score_delta: "+0.370".into(),
        confidence: "HIGH".into(),
        alternatives: vec![("alt prompt".into(), "0.650".into())],
    }
}

#[test]
fn should_annotate_matches_the_field_lines() {
    assert!(should_annotate("[agent]", "agent.system_prompt"));
    assert!(should_annotate("system_prompt = \"x\"", "agent.system_prompt"));
    assert!(!should_annotate("name = \"x\"", "agent.system_prompt"));
    assert!(should_annotate("turn_depth = 3", "agent.turn_depth"));
    assert!(should_annotate("temperature = 0.1", "agent.temperature"));
    assert!(should_annotate("[orchestration.prompts]", "orchestration.prompts.synthesis_prompt"));
    assert!(should_annotate("synthesis_prompt = \"\"\"", "orchestration.prompts.synthesis_prompt"));
    assert!(should_annotate("[orchestration.workers.db]", "orchestration.workers.db.preamble"));
    assert!(should_annotate("preamble = \"db\"", "orchestration.workers.db.preamble"));
    assert!(!should_annotate("preamble = \"x\"", "orchestration.workers.db.preamble"));
    assert!(!should_annotate("[agent]", "unknown.field"));
}

#[test]
fn annotation_block_has_exact_form() {
    let text = format_annotation(&annotation("agent.system_prompt"));
    assert_eq!(
        text,
        "# OPTIMIZED by BootstrapFewShot: agent.system_prompt\n\
         # Before score: 0.450 \u{2192} After score: 0.820 (+0.370)\n\
         # Confidence: HIGH\n\
         # Rationale: Few-shot examples improved clarity.\n\
         # Alternatives tried:\n\
         #   score=0.650: \"alt prompt...\"\n\
         # Before: \"old...\"\n\
         # After:  \"new...\"\n\
         #\n"
    );
}

#[test]
fn annotated_toml_marks_the_agent_section() {
    let base = "[llm]\nmodel = \"gpt-4o\"\n\n[agent]\nname = \"SRE\"\nsystem_prompt = \"hi\"\n";
    let block = format_annotation(&annotation("agent.system_prompt"));
    let out = annotate_toml(base, &vec![("agent.system_prompt".to_string(), block.clone())]);
    assert!(out.contains("OPTIMIZED by BootstrapFewShot"));
    assert_eq!(out.matches("# OPTIMIZED by").count(), 2);
    let without_comments: Vec<&str> = out.lines().filter(|l| !l.starts_with('#')).collect();
    assert_eq!(without_comments, base.lines().collect::<Vec<&str>>());
}

#[test]
fn annotated_toml_marks_orchestration_prompts() {
    let base = "[orchestration.prompts]\nsynthesis_prompt = \"s\"\n";
    let mut a = annotation("orchestration.prompts.synthesis_prompt");
    a.optimizer = "InstructionOptimizer".into();
    let block = format_annotation(&a);
    let out = annotate_toml(base, &vec![("orchestration.prompts.synthesis_prompt".to_string(), block)]);
    assert!(out.contains("OPTIMIZED by InstructionOptimizer"));
    assert!(out.contains("orchestration.prompts.synthesis_prompt"));
}

#[test]
fn test_verbose_compiler_annotates_orchestration_prompts() {
    let base = "[agent]\nname = \"Orchestrator\"\nsystem_prompt = \"You coordinate.\"\n\n\
                [orchestration]\nenabled = true\n\n\
                [orchestration.prompts]\nsynthesis_prompt = \"old synthesis\"\nreflection_prompt = \"r\"\n";
    let a = Annotation {
        optimizer: "InstructionOptimizer".into(),
        field: "orchestration.prompts.synthesis_prompt".into(),
        rationale: "Improved synthesis clarity.".into(),
        before: "old synthesis".into(),
        after: "new synthesis".into(),
        score_before: "0.500".into(),
        score_after: "0.800".into(),
        score_delta: "+0.300".into(),
        confidence: "MEDIUM".into(),
        alternatives: vec![],
    };
    let block = format_annotation(&a);
    let verbose = annotate_toml(base, &vec![("orchestration.prompts.synthesis_prompt".to_string(), block.clone())]);
    assert!(verbose.contains("OPTIMIZED by InstructionOptimizer"));
    assert!(verbose.contains("orchestration.prompts.synthesis_prompt"));
    // The block stands right above the section header and above the prompt's own line.
    assert!(verbose.contains(&format!("{block}[orchestration.prompts]\n")));
    assert!(verbose.contains(&format!("{block}synthesis_prompt = \"old synthesis\"\n")));
    assert!(verbose.contains("\nreflection_prompt = \"r\"\n"));
    assert!(!verbose.contains(&format!("{block}reflection_prompt")));
    assert!(!verbose.contains(&format!("{block}[agent]")));
}
