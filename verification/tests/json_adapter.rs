use dspy_core::example::Example;
use dspy_core::json::Json;
use dspy_core::json_adapter::{extract_json_object, JSONAdapter};
use dspy_core::signature::Signature;

#[test]
fn test_system_message_describes_json_output() {
    let adapter = JSONAdapter::new();
    let sig = Signature::from_string("question -> answer").unwrap();
    let msg = adapter.format_system_message(&sig);
    assert!(msg.contains("Outputs will be a JSON object"));
    assert!(msg.contains("\"answer\""));
}

#[test]
fn test_system_message_uses_markers_for_inputs() {
    let adapter = JSONAdapter::new();
    let sig = Signature::from_string("question -> answer").unwrap();
    let msg = adapter.format_system_message(&sig);
    assert!(msg.contains("[[ ## question ## ]]"));
    assert!(msg.contains("Inputs will have the following structure"));
}

#[test]
fn test_system_message_no_completed_marker() {
    let adapter = JSONAdapter::new();
    let sig = Signature::from_string("question -> answer").unwrap();
    let msg = adapter.format_system_message(&sig);
    assert!(!msg.contains("[[ ## completed ## ]]"));
}

#[test]
fn test_user_message_json_requirements() {
    let adapter = JSONAdapter::new();
    let sig = Signature::from_string("question -> answer").unwrap();
    let inputs = Example::new().field("question", "What is 2+2?");
    let msg = adapter.format_user_message(&sig, &inputs);
    assert!(msg.contains("[[ ## question ## ]]"));
    assert!(msg.contains("What is 2+2?"));
    assert!(msg.contains("Respond with a JSON object"));
    assert!(msg.contains("`answer`"));
}

#[test]
fn test_format_messages_with_json_demos() {
    let adapter = JSONAdapter::new();
    let sig = Signature::from_string("question -> answer").unwrap();
    let inputs = Example::new().field("question", "What is 2+2?");
    let demo = Example::new()
        .field("question", "What is 1+1?")
        .field("answer", "2");
    let messages = adapter.format_messages(&sig, &inputs, &vec![demo]);
    assert_eq!(messages.len(), 4);
    assert_eq!(messages[2].role, "assistant");
    let parsed = Json::parse(&messages[2].content).unwrap();
    assert_eq!(parsed.get("answer").unwrap().as_str(), Some("2"));
}

#[test]
fn test_parse_valid_json() {
    let adapter = JSONAdapter::new();
    let sig = Signature::from_string("question -> answer").unwrap();
    let result = adapter.parse_output(r#"{"answer": "42"}"#, &sig).unwrap();
    assert_eq!(result.get("answer").unwrap().as_str(), Some("42"));
}

#[test]
fn test_parse_json_filters_extra_fields() {
    let adapter = JSONAdapter::new();
    let sig = Signature::from_string("question -> answer").unwrap();
    let result = adapter
        .parse_output(r#"{"answer": "42", "extra": "ignored"}"#, &sig)
        .unwrap();
    assert_eq!(result.get("answer").unwrap().as_str(), Some("42"));
    assert!(!result.contains_key("extra"));
}

#[test]
fn test_parse_json_from_surrounding_text() {
    let adapter = JSONAdapter::new();
    let sig = Signature::from_string("question -> answer").unwrap();
    let result = adapter
        .parse_output("Here is my answer:\n{\"answer\": \"42\"}\nDone.", &sig)
        .unwrap();
    assert_eq!(result.get("answer").unwrap().as_str(), Some("42"));
}

#[test]
fn test_parse_multi_field_json() {
    let adapter = JSONAdapter::new();
    let sig = Signature::from_string("question -> reasoning, answer").unwrap();
    let result = adapter
        .parse_output(r#"{"reasoning": "2+2=4", "answer": "4"}"#, &sig)
        .unwrap();
    assert_eq!(result.get("reasoning").unwrap().as_str(), Some("2+2=4"));
    assert_eq!(result.get("answer").unwrap().as_str(), Some("4"));
}

#[test]
fn json_adapter_test_parse_fallback_to_raw_text() {
    let adapter = JSONAdapter::new();
    let sig = Signature::from_string("question -> answer").unwrap();
    let result = adapter
        .parse_output("The answer is 42", &sig)
        .unwrap();
    assert_eq!(result.get("answer").unwrap().as_str(), Some("The answer is 42"));
}

#[test]
fn json_adapter_test_format_messages_no_demos() {
    let adapter = JSONAdapter::new();
    let sig = Signature::from_string("question -> answer").unwrap();
    let inputs = Example::new().field("question", "test");
    let messages = adapter.format_messages(&sig, &inputs, &vec![]);
    assert_eq!(messages.len(), 2);
}

#[test]
fn json_adapter_test_system_message_with_instructions() {
    let adapter = JSONAdapter::new();
    let sig = Signature::from_string("question -> answer")
        .unwrap()
        .with_instructions("Answer concisely");
    let msg = adapter.format_system_message(&sig);
    assert!(msg.contains("Answer concisely"));
}

#[test]
fn a_reply_to_a_demonstration_is_read_back() {
    let adapter = JSONAdapter::new();
    let sig = Signature::from_string("question -> reasoning, answer").unwrap();
    let demo = Example::new().field("reasoning", "it \"is\"").field("answer", "4");
    let reply = adapter.demo_reply(&sig, &demo);
    let result = adapter.parse_output(&reply, &sig).unwrap();
    assert_eq!(result.get("reasoning").unwrap().as_str(), Some("it \"is\""));
    assert_eq!(result.get("answer").unwrap().as_str(), Some("4"));
}

#[test]
fn an_object_is_found_by_its_braces() {
    assert_eq!(extract_json_object("a {\"b\": {}} c"), Some("{\"b\": {}}".to_string()));
    assert_eq!(extract_json_object("no braces"), None);
    assert_eq!(extract_json_object("{ open"), None);
}
