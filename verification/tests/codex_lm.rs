use dspy_core::cli::{format_messages, CliCall, CliOutcome};
use dspy_core::codex_lm::{extract_text, parse_codex_output, CodexLM, CodexLMConfig};
use dspy_core::json::Json;
use dspy_core::lm::LMConfig;
use dspy_core::message::Message;

fn j(text: &str) -> Json {
    Json::parse(text).unwrap()
}

#[test]
fn codex_lm_test_default_config() {
    let config = CodexLMConfig::default();
    assert_eq!(config.model, "gpt-5.2-codex");
    assert!(config.skip_git_check);
    assert_eq!(config.sandbox, "read-only");
    assert_eq!(config.timeout_secs, 120);
    assert_eq!(config.retries, 2);
    assert_eq!(config.max_concurrent, 4);
}

#[test]
fn codex_lm_test_with_model() {
    let lm = CodexLM::with_model("gpt-4o");
    assert_eq!(lm.model(), "gpt-4o");
}

#[test]
fn codex_lm_test_dump_state() {
    let lm = CodexLM::new(CodexLMConfig {
        model: "gpt-5.2-codex".into(),
        sandbox: "workspace-write".into(),
        reasoning_effort: Some("high".into()),
        ..Default::default()
    });
    let state = lm.dump_state();
    assert_eq!(state.get("type").unwrap().as_str(), Some("CodexLM"));
    assert_eq!(state.get("model").unwrap().as_str(), Some("gpt-5.2-codex"));
    assert_eq!(state.get("sandbox").unwrap().as_str(), Some("workspace-write"));
    assert_eq!(state.get("reasoning_effort").unwrap().as_str(), Some("high"));
}

#[test]
fn codex_lm_test_format_messages_extracts_system() {
    let messages = vec![
        Message::system("You are helpful"),
        Message::user("Hello"),
        Message::assistant("Hi"),
    ];
    let (sys, prompt) = format_messages(&messages, None);
    assert_eq!(sys, Some("You are helpful".to_string()));
    assert!(prompt.contains("[USER]: Hello"));
    assert!(prompt.contains("[ASSISTANT]: Hi"));
}

#[test]
fn codex_lm_test_format_messages_default_system() {
    let messages = vec![Message::user("Hello")];
    let (sys, _) = format_messages(&messages, Some("default"));
    assert_eq!(sys, Some("default".to_string()));
}

#[test]
fn test_parse_output_key() {
    let json = r#"{"output": "response text"}"#;
    let result = parse_codex_output(json).unwrap();
    assert_eq!(result, "response text");
}

#[test]
fn test_parse_result_key() {
    let json = r#"{"result": "answer"}"#;
    let result = parse_codex_output(json).unwrap();
    assert_eq!(result, "answer");
}

#[test]
fn test_parse_jsonl() {
    let jsonl = "{\"type\": \"event\"}\n{\"output\": \"final answer\"}";
    let result = parse_codex_output(jsonl).unwrap();
    assert_eq!(result, "final answer");
}

#[test]
fn test_parse_choices_format() {
    let json = r#"{"choices": [{"message": {"content": "choice text"}}]}"#;
    let result = parse_codex_output(json).unwrap();
    assert_eq!(result, "choice text");
}

#[test]
fn test_parse_raw_text_fallback() {
    let raw = "just plain text";
    let result = parse_codex_output(raw).unwrap();
    assert_eq!(result, "just plain text");
}

#[test]
fn codex_lm_test_parse_empty_fails() {
    assert!(parse_codex_output("").is_err());
    assert!(parse_codex_output("  ").is_err());
}

#[test]
fn arguments_hold_the_prompt() {
    let lm = CodexLM::new(CodexLMConfig {
        reasoning_effort: Some("high".to_string()),
        system_prompt: Some("Be brief".to_string()),
        ..Default::default()
    });
    assert_eq!(
        lm.arguments(&vec![Message::user("Hello")]),
        vec![
            "exec", "--skip-git-repo-check", "--sandbox", "read-only", "--json", "-c",
            "developer_instructions=Be brief", "-c", "reasoning_effort=high", "--",
            "[USER]: Hello",
        ]
    );
}

#[test]
fn failures_say_what_happened() {
    let mut config = CodexLMConfig::default();
    config.retries = 0;
    let lm = CodexLM::new(config);
    let outcomes = vec![
        (
            CliOutcome::Exited {
                success: false,
                code: Some(-2),
                stdout: String::new(),
                stderr: " broken \n".to_string(),
            },
            "Codex CLI exited with code Some(-2): broken",
        ),
        (
            CliOutcome::Exited {
                success: false,
                code: None,
                stdout: String::new(),
                stderr: String::new(),
            },
            "Codex CLI exited with code None: ",
        ),
        (CliOutcome::NotStarted("gone".to_string()), "Failed to spawn codex CLI: gone"),
        (CliOutcome::Broken("pipe".to_string()), "Codex CLI error: pipe"),
        (CliOutcome::TimedOut, "Codex CLI timed out after 120s"),
    ];
    for (outcome, text) in outcomes {
        let mut call = CliCall::new(&LMConfig::new("m"));
        assert_eq!(lm.on_outcome(&mut call, outcome).unwrap_err().message(), text);
    }
}

#[test]
fn replies_are_looked_for_in_order() {
    let text = |s: &str| extract_text(&j(s));
    assert_eq!(text(r#"{"text": "b", "output": "a"}"#), Some("a".to_string()));
    assert_eq!(text(r#"{"output": null, "content": [1]}"#), Some("[1]".to_string()));
    assert_eq!(text(r#"{"message": {"content": "c"}}"#), Some("c".to_string()));
    assert_eq!(text(r#"{"choices": [{"text": "d"}]}"#), Some("\"d\"".to_string()));
    assert_eq!(text(r#"{"choices": []}"#), None);
    assert_eq!(text(r#"[{"output": "x"}, [{"text": "y"}], 3]"#), Some("y".to_string()));
    assert_eq!(text("3"), None);
}

#[test]
fn a_temperature_is_noted_once() {
    let mut lm = CodexLM::with_model("m");
    assert!(lm.note_temperature(false).is_none());
    assert!(lm.note_temperature(true).is_some());
    assert!(lm.note_temperature(true).is_none());
}
