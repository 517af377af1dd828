use dspy_core::claude_lm::{parse_claude_output, ClaudeLM, ClaudeLMConfig, EXTRA_BODY_VARIABLE, LABEL};
use dspy_core::cli::{format_messages, program_name, program_title, CliCall, CliOutcome};
use dspy_core::json::JsonFloat;
use dspy_core::lm::LMConfig;
use dspy_core::message::Message;

#[test]
fn claude_lm_test_default_config() {
    let config = ClaudeLMConfig::default();
    assert_eq!(config.model, "sonnet");
    assert!(config.disable_tools);
    assert_eq!(config.timeout_secs, 60);
    assert_eq!(config.retries, 2);
    assert_eq!(config.max_concurrent, 4);
}

#[test]
fn claude_lm_test_with_model() {
    let lm = ClaudeLM::with_model("opus");
    assert_eq!(lm.model(), "opus");
}

#[test]
fn claude_lm_test_dump_state() {
    let lm = ClaudeLM::new(ClaudeLMConfig {
        model: "haiku".into(),
        system_prompt: Some("Be helpful".into()),
        disable_tools: false,
        ..Default::default()
    });
    let state = lm.dump_state();
    assert_eq!(state.get("type").unwrap().as_str(), Some("ClaudeLM"));
    assert_eq!(state.get("model").unwrap().as_str(), Some("haiku"));
    assert_eq!(state.get("system_prompt").unwrap().as_str(), Some("Be helpful"));
    assert_eq!(state.get("disable_tools").unwrap().as_bool(), Some(false));
}

#[test]
fn claude_lm_test_format_messages_extracts_system() {
    let messages = vec![
        Message::system("You are helpful"),
        Message::user("Hello"),
        Message::assistant("Hi there"),
    ];
    let (sys, prompt) = format_messages(&messages, None);
    assert_eq!(sys, Some("You are helpful".to_string()));
    assert!(prompt.contains("[USER]: Hello"));
    assert!(prompt.contains("[ASSISTANT]: Hi there"));
    assert!(!prompt.contains("You are helpful"));
}

#[test]
fn claude_lm_test_format_messages_default_system() {
    let messages = vec![Message::user("Hello")];
    let (sys, _) = format_messages(&messages, Some("default sys"));
    assert_eq!(sys, Some("default sys".to_string()));
}

#[test]
fn test_format_messages_no_system() {
    let messages = vec![Message::user("Hello")];
    let (sys, prompt) = format_messages(&messages, None);
    assert_eq!(sys, None);
    assert_eq!(prompt, "[USER]: Hello");
}

#[test]
fn test_parse_result() {
    let json = r#"{"result": "Hello world", "usage": {}}"#;
    let result = parse_claude_output(json).unwrap();
    assert_eq!(result, "Hello world");
}

#[test]
fn test_parse_structured_output_object() {
    let json = r#"{"structured_output": {"answer": 42}, "result": "fallback"}"#;
    let result = parse_claude_output(json).unwrap();
    assert!(result.contains("42"));
}

#[test]
fn test_parse_structured_output_string() {
    let json = r#"{"structured_output": "direct string"}"#;
    let result = parse_claude_output(json).unwrap();
    assert_eq!(result, "direct string");
}

#[test]
fn claude_lm_test_parse_empty_fails() {
    assert!(parse_claude_output("").is_err());
    assert!(parse_claude_output("  ").is_err());
}

#[test]
fn test_parse_empty_result_fails() {
    let json = r#"{"result": ""}"#;
    assert!(parse_claude_output(json).is_err());
}

#[test]
fn test_parse_missing_result_fails() {
    let json = r#"{"other": "value"}"#;
    assert!(parse_claude_output(json).is_err());
}

fn exited(success: bool, stdout: &str, stderr: &str) -> CliOutcome {
    CliOutcome::Exited {
        success,
        code: if success { Some(0) } else { Some(1) },
        stdout: stdout.to_string(),
        stderr: stderr.to_string(),
    }
}

#[test]
fn the_program_is_named_after_the_model() {
    assert_eq!(format!("{}LM", program_title(LABEL)), LABEL);
    assert_eq!(program_name(LABEL), program_title(LABEL).to_lowercase());
    assert!(EXTRA_BODY_VARIABLE.starts_with(&program_title(LABEL).to_uppercase()));
}

#[test]
fn arguments_say_how_the_program_runs() {
    let lm = ClaudeLM::with_model("haiku");
    let messages = vec![Message::system("Be brief"), Message::user("Hello")];
    let (args, prompt) = lm.arguments(&messages, lm.config());
    assert_eq!(
        args,
        vec![
            "-p", "--print", "--output-format", "json", "--no-session-persistence", "--model",
            "haiku", "--tools", "", "--system-prompt", "Be brief",
        ]
    );
    assert_eq!(prompt, "[USER]: Hello");
}

#[test]
fn numbers_go_into_the_extra_body() {
    let lm = ClaudeLM::with_model("haiku");
    assert_eq!(lm.extra_body(&LMConfig::new("m")), None);
    let mut config = LMConfig::new("m");
    config.top_p = JsonFloat::parse("0.9");
    config.temperature = JsonFloat::parse("0.5");
    assert_eq!(lm.extra_body(&config), Some(r#"{"temperature":0.5,"top_p":0.9}"#.to_string()));
}

#[test]
fn a_run_that_fails_is_made_again() {
    let lm = ClaudeLM::new(ClaudeLMConfig { retries: 1, ..Default::default() });
    let mut config = LMConfig::new("m");
    config.n = Some(2);
    let mut call = CliCall::new(&config);
    assert!(lm.on_outcome(&mut call, CliOutcome::TimedOut).is_ok());
    assert!(lm.on_outcome(&mut call, exited(true, r#"{"result": "one"}"#, "")).is_ok());
    assert!(lm.on_outcome(&mut call, exited(false, "", "no")).is_ok());
    assert!(call.wants_more());
    assert!(lm.on_outcome(&mut call, exited(true, r#"{"result": "two"}"#, "")).is_ok());
    assert!(!call.wants_more());
    let texts: Vec<&str> = call.results.iter().map(|r| r.text.as_str()).collect();
    assert_eq!(texts, vec!["one", "two"]);
}

#[test]
fn a_reply_that_cannot_be_read_fails_at_once() {
    let lm = ClaudeLM::with_model("haiku");
    let mut call = CliCall::new(&LMConfig::new("m"));
    let error = lm.on_outcome(&mut call, exited(true, "not json", "")).unwrap_err();
    let expected = format!("Invalid JSON from {} CLI: ", program_title(LABEL));
    assert!(error.message().starts_with(&expected));
}

#[test]
fn the_program_is_run_no_more_than_the_retries_allow() {
    let lm = ClaudeLM::new(ClaudeLMConfig { retries: 2, ..Default::default() });
    let mut config = LMConfig::new("m");
    config.n = Some(2);
    let mut call = CliCall::new(&config);
    let mut runs = 0;
    let error = loop {
        assert!(call.wants_more());
        let outcome = if runs == 2 {
            exited(true, r#"{"result": "one"}"#, "")
        } else {
            exited(false, "", "no")
        };
        runs += 1;
        if let Err(e) = lm.on_outcome(&mut call, outcome) {
            break e;
        }
    };
    assert_eq!(runs, 6);
    assert_eq!(call.results.len(), 1);
    assert_eq!(call.attempt, 2);
    assert!(error.message().contains("CLI exited with code"));
}
