use dspy_core::example::Example;
use dspy_core::signature::Signature;
use dspy_core::xml_adapter::XMLAdapter;

#[test]
fn test_system_message_uses_xml_tags() {
    let adapter = XMLAdapter::new();
    let sig = Signature::from_string("question -> answer").unwrap();
    let msg = adapter.format_system_message(&sig);
    assert!(msg.contains("<question>"));
    assert!(msg.contains("</question>"));
    assert!(msg.contains("<answer>"));
    assert!(msg.contains("</answer>"));
}

#[test]
fn test_system_message_no_bracket_markers() {
    let adapter = XMLAdapter::new();
    let sig = Signature::from_string("question -> answer").unwrap();
    let msg = adapter.format_system_message(&sig);
    assert!(!msg.contains("[[ ## question ## ]]"));
    assert!(!msg.contains("[[ ## answer ## ]]"));
    assert!(!msg.contains("[[ ## completed ## ]]"));
}

#[test]
fn test_user_message_xml_format() {
    let adapter = XMLAdapter::new();
    let sig = Signature::from_string("question -> answer").unwrap();
    let inputs = Example::new().field("question", "What is 2+2?");
    let msg = adapter.format_user_message(&sig, &inputs);
    assert!(msg.contains("<question>"));
    assert!(msg.contains("What is 2+2?"));
    assert!(msg.contains("</question>"));
    assert!(msg.contains("wrapped in XML tags"));
    assert!(msg.contains("`<answer>`"));
}

#[test]
fn test_format_messages_with_xml_demos() {
    let adapter = XMLAdapter::new();
    let sig = Signature::from_string("question -> answer").unwrap();
    let inputs = Example::new().field("question", "What is 2+2?");
    let demo = Example::new()
        .field("question", "What is 1+1?")
        .field("answer", "2");
    let messages = adapter.format_messages(&sig, &inputs, &vec![demo]);
    assert_eq!(messages.len(), 4);
    assert!(messages[1].content.contains("<question>"));
    assert!(messages[1].content.contains("What is 1+1?"));
    assert!(messages[1].content.contains("</question>"));
    assert!(messages[2].content.contains("<answer>"));
    assert!(messages[2].content.contains("2"));
    assert!(messages[2].content.contains("</answer>"));
}

#[test]
fn test_parse_xml_tags() {
    let adapter = XMLAdapter::new();
    let sig = Signature::from_string("question -> answer").unwrap();
    let result = adapter.parse_output("<answer>42</answer>", &sig).unwrap();
    assert_eq!(result.get("answer").unwrap().as_str(), Some("42"));
}

#[test]
fn test_parse_xml_from_surrounding_text() {
    let adapter = XMLAdapter::new();
    let sig = Signature::from_string("question -> answer").unwrap();
    let result = adapter
        .parse_output("Here is my answer:\n<answer>42</answer>\nDone.", &sig)
        .unwrap();
    assert_eq!(result.get("answer").unwrap().as_str(), Some("42"));
}

#[test]
fn test_parse_multi_field_xml() {
    let adapter = XMLAdapter::new();
    let sig = Signature::from_string("question -> reasoning, answer").unwrap();
    let result = adapter
        .parse_output(
            "<reasoning>2+2 equals 4</reasoning>\n<answer>4</answer>",
            &sig,
        )
        .unwrap();
    assert_eq!(result.get("reasoning").unwrap().as_str(), Some("2+2 equals 4"));
    assert_eq!(result.get("answer").unwrap().as_str(), Some("4"));
}

#[test]
fn test_parse_multiline_xml() {
    let adapter = XMLAdapter::new();
    let sig = Signature::from_string("question -> answer").unwrap();
    let result = adapter
        .parse_output("<answer>Line 1\nLine 2\nLine 3</answer>", &sig)
        .unwrap();
    assert_eq!(
        result.get("answer").unwrap().as_str(),
        Some("Line 1\nLine 2\nLine 3")
    );
}

#[test]
fn test_parse_ignores_non_output_fields() {
    let adapter = XMLAdapter::new();
    let sig = Signature::from_string("question -> answer").unwrap();
    let result = adapter
        .parse_output(
            "<question>ignored</question>\n<answer>42</answer>",
            &sig,
        )
        .unwrap();
    assert_eq!(result.get("answer").unwrap().as_str(), Some("42"));
    assert!(!result.contains_key("question"));
}

#[test]
fn test_parse_takes_first_match() {
    let adapter = XMLAdapter::new();
    let sig = Signature::from_string("question -> answer").unwrap();
    let result = adapter
        .parse_output("<answer>first</answer>\n<answer>second</answer>", &sig)
        .unwrap();
    assert_eq!(result.get("answer").unwrap().as_str(), Some("first"));
}

#[test]
fn xml_adapter_test_parse_fallback_to_raw_text() {
    let adapter = XMLAdapter::new();
    let sig = Signature::from_string("question -> answer").unwrap();
    let result = adapter
        .parse_output("The answer is 42", &sig)
        .unwrap();
    assert_eq!(result.get("answer").unwrap().as_str(), Some("The answer is 42"));
}

#[test]
fn xml_adapter_test_system_message_with_instructions() {
    let adapter = XMLAdapter::new();
    let sig = Signature::from_string("question -> answer")
        .unwrap()
        .with_instructions("Be concise");
    let msg = adapter.format_system_message(&sig);
    assert!(msg.contains("Be concise"));
}

#[test]
fn tags_that_do_not_close_hold_nothing() {
    let adapter = XMLAdapter::new();
    assert_eq!(
        adapter.extract_xml_fields("<a>1<b>2</b>"),
        vec![("b".to_string(), "2".to_string())]
    );
    assert!(adapter.extract_xml_fields("<a b>1</a b>").is_empty());
}
