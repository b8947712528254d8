use aura_prompt_opt::error::Error;
use aura_prompt_opt::values_file::{
    extract_toml_from_value, extract_toml_from_yaml, inject_toml_into_value, inject_toml_into_yaml, split_char,
    yaml_value_get, YamlValue,
};

const TOML: &str = "[llm]\nprovider = \"openai\"\napi_key = \"{{ env.OPENAI_API_KEY }}\"\nmodel = \"gpt-4o\"\n\n[agent]\nname = \"Test Agent\"\nsystem_prompt = \"You are helpful.\"\n";

fn s(x: &str) -> YamlValue {
    YamlValue::String(x.to_string())
}

/// The sample values document: replicaCount, image, config.content, server.httpPort.
fn sample_values() -> YamlValue {
    YamlValue::Mapping(vec![
        (s("replicaCount"), YamlValue::Number("1".into())),
        (s("image"), s("mezmo/aura:orchestration")),
        (s("config"), YamlValue::Mapping(vec![(s("content"), s(TOML))])),
        (s("server"), YamlValue::Mapping(vec![(s("httpPort"), YamlValue::Number("8080".into()))])),
    ])
}

fn message(e: Error) -> String {
    match e {
        Error::Config(m) => m,
        other => panic!("unexpected {other:?}"),
    }
}

#[test]
fn value_level_extract_toml_from_yaml() {
    let toml = extract_toml_from_value(&sample_values(), "config.content").unwrap();
    assert!(toml.contains("[llm]"));
    assert!(toml.contains("[agent]"));
    assert!(toml.contains("gpt-4o"));
}

#[test]
fn value_level_extract_missing_key() {
    let result = extract_toml_from_value(&sample_values(), "config.nonexistent");
    assert!(result.is_err());
    assert!(message(result.unwrap_err()).contains("nonexistent"));
}

#[test]
fn value_level_extract_non_string_value() {
    let result = extract_toml_from_value(&sample_values(), "replicaCount");
    assert!(result.is_err());
    assert!(message(result.unwrap_err()).contains("not a string"));
}

#[test]
fn extraction_errors_have_exact_wording() {
    assert_eq!(
        message(extract_toml_from_value(&sample_values(), "config.nonexistent").unwrap_err()),
        "key 'nonexistent' not found in YAML (path: config.nonexistent)"
    );
    assert_eq!(
        message(extract_toml_from_value(&sample_values(), "server").unwrap_err()),
        "value at 'server' is not a string (found \"object\")"
    );
}

#[test]
fn value_level_inject_toml_into_yaml() {
    let new_toml = "[llm]\nprovider = \"anthropic\"\n";
    let mut doc = sample_values();
    inject_toml_into_value(&mut doc, "config.content", new_toml).unwrap();

    let extracted = extract_toml_from_value(&doc, "config.content").unwrap();
    assert!(extracted.contains("anthropic"));

    assert!(yaml_value_get(&doc, "replicaCount").is_some());
    assert!(yaml_value_get(yaml_value_get(&doc, "server").unwrap(), "httpPort").is_some());
}

#[test]
fn value_level_round_trip_preserves_structure() {
    let toml = extract_toml_from_value(&sample_values(), "config.content").unwrap();
    let mut doc = sample_values();
    inject_toml_into_value(&mut doc, "config.content", &toml).unwrap();
    let toml2 = extract_toml_from_value(&doc, "config.content").unwrap();
    assert_eq!(toml, toml2);
}

#[test]
fn injection_creates_missing_mappings() {
    let mut doc = YamlValue::Mapping(Vec::new());
    inject_toml_into_value(&mut doc, "a.b.c", "x = 1").unwrap();
    assert_eq!(extract_toml_from_value(&doc, "a.b.c").unwrap(), "x = 1");
}

#[test]
fn injection_refuses_non_mappings() {
    let mut doc = sample_values();
    assert_eq!(
        message(inject_toml_into_value(&mut doc, "image.content", "x").unwrap_err()),
        "cannot set key 'content' on non-mapping"
    );
    let mut scalar = s("just text");
    assert_eq!(
        message(inject_toml_into_value(&mut scalar, "a.b", "x").unwrap_err()),
        "cannot traverse key 'a' on non-mapping"
    );
}

#[test]
fn tagged_values_are_read_through() {
    let doc = YamlValue::Mapping(vec![(s("k"), YamlValue::Tagged("!t".into(), Box::new(s("v"))))]);
    assert_eq!(extract_toml_from_value(&doc, "k").unwrap(), "v");
}

#[test]
fn split_keeps_empty_pieces() {
    assert_eq!(split_char("a..b", '.'), vec!["a".to_string(), "".to_string(), "b".to_string()]);
    assert_eq!(split_char("", '.'), vec!["".to_string()]);
}

const SAMPLE_VALUES: &str = r#"
replicaCount: 1
image: mezmo/aura:orchestration
config:
  content: |
    [llm]
    provider = "openai"
    api_key = "{{ env.OPENAI_API_KEY }}"
    model = "gpt-4o"

    [agent]
    name = "Test Agent"
    system_prompt = "You are helpful."
server:
  httpPort: 8080
"#;

#[test]
fn test_extract_toml_from_yaml() {
    let toml = extract_toml_from_yaml(SAMPLE_VALUES, "config.content").unwrap();
    assert!(toml.contains("[llm]"));
    assert!(toml.contains("[agent]"));
    assert!(toml.contains("gpt-4o"));
}

#[test]
fn test_extract_missing_key() {
    let result = extract_toml_from_yaml(SAMPLE_VALUES, "config.nonexistent");
    assert!(result.is_err());
    assert!(result.unwrap_err().message().contains("nonexistent"));
}

#[test]
fn test_extract_non_string_value() {
    let result = extract_toml_from_yaml(SAMPLE_VALUES, "replicaCount");
    assert!(result.is_err());
    assert!(result.unwrap_err().message().contains("not a string"));
}

#[test]
fn test_inject_toml_into_yaml() {
    let new_toml = "[llm]\nprovider = \"anthropic\"\n";
    let result = inject_toml_into_yaml(SAMPLE_VALUES, "config.content", new_toml).unwrap();

    let extracted = extract_toml_from_yaml(&result, "config.content").unwrap();
    assert!(extracted.contains("anthropic"));

    assert!(result.contains("replicaCount"));
    assert!(result.contains("httpPort"));
}

#[test]
fn test_round_trip_preserves_structure() {
    let toml = extract_toml_from_yaml(SAMPLE_VALUES, "config.content").unwrap();
    let result = inject_toml_into_yaml(SAMPLE_VALUES, "config.content", &toml).unwrap();
    let re_extracted = extract_toml_from_yaml(&result, "config.content").unwrap();
    assert_eq!(toml.trim(), re_extracted.trim());
}

#[test]
fn yaml_text_extraction_reads_the_parsed_document() {
    assert_eq!(extract_toml_from_yaml("a:\n  b: hello\n", "a.b").unwrap(), "hello");
    assert_eq!(
        message(extract_toml_from_yaml("a:\n  b: hello\n", "a.c").unwrap_err()),
        "key 'c' not found in YAML (path: a.c)"
    );
}

#[test]
fn unparsable_yaml_is_a_configuration_error() {
    let m = message(extract_toml_from_yaml("a: [1, 2", "a").unwrap_err());
    assert!(m.starts_with("failed to parse YAML: "));
    let m = message(inject_toml_into_yaml("a: [1, 2", "a", "x").unwrap_err());
    assert!(m.starts_with("failed to parse YAML: "));
}

#[test]
fn yaml_text_injection_errors_keep_their_wording() {
    assert_eq!(
        message(inject_toml_into_yaml("image: text\n", "image.content", "x").unwrap_err()),
        "cannot set key 'content' on non-mapping"
    );
}

#[test]
fn yaml_text_injection_adds_missing_mappings() {
    let out = inject_toml_into_yaml("keep: 1\n", "config.content", "x = 1").unwrap();
    assert_eq!(extract_toml_from_yaml(&out, "config.content").unwrap(), "x = 1");
    assert_eq!(extract_toml_from_yaml(&out, "keep").unwrap_err().message(),
        "Configuration error: value at 'keep' is not a string (found \"number\")");
}

#[test]
fn failed_injection_leaves_the_value_unchanged() {
    let mut doc = YamlValue::Mapping(vec![(s("image"), s("text"))]);
    assert!(inject_toml_into_value(&mut doc, "image.content", "x").is_err());
    assert_eq!(extract_toml_from_value(&doc, "image").unwrap(), "text");
    let mut doc = YamlValue::Mapping(vec![(s("a"), YamlValue::Mapping(vec![(s("b"), s("leaf"))]))]);
    assert!(inject_toml_into_value(&mut doc, "a.b.c", "x").is_err());
    assert_eq!(extract_toml_from_value(&doc, "a.b").unwrap(), "leaf");
}
