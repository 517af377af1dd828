use dspy_core::adapter::{find_next_marker, ChatAdapter, NativeResponseType};
use dspy_core::example::Example;
use dspy_core::signature::Signature;

fn test_sig() -> Signature {
    Signature::from_string("question -> answer").unwrap()
}

fn empty_skip() -> Vec<String> {
    Vec::new()
}

#[test]
fn test_system_message_format() {
    let adapter = ChatAdapter::new();
    let sig = test_sig();
    let msg = adapter.format_system_message(&sig, &empty_skip());
    assert!(msg.contains("Your input fields are:"));
    assert!(msg.contains("`question`"));
    assert!(msg.contains("Your output fields are:"));
    assert!(msg.contains("`answer`"));
    assert!(msg.contains("[[ ## question ## ]]"));
    assert!(msg.contains("[[ ## answer ## ]]"));
    assert!(msg.contains("[[ ## completed ## ]]"));
    assert!(msg.contains("All interactions will be structured"));
}

#[test]
fn adapter_test_format_messages_no_demos() {
    let adapter = ChatAdapter::new();
    let sig = test_sig();
    let inputs = Example::new().field("question", "What is 2+2?");
    let messages = adapter.format_messages(&sig, &inputs, &vec![], &empty_skip());
    assert_eq!(messages.len(), 2);
    assert_eq!(messages[0].role, "system");
    assert_eq!(messages[1].role, "user");
    assert!(messages[1].content.contains("[[ ## question ## ]]"));
    assert!(messages[1].content.contains("What is 2+2?"));
}

#[test]
fn test_format_messages_with_demos() {
    let adapter = ChatAdapter::new();
    let sig = test_sig();
    let inputs = Example::new().field("question", "What is 3+3?");
    let demo = Example::new()
        .field("question", "What is 1+1?")
        .field("answer", "2");
    let messages = adapter.format_messages(&sig, &inputs, &vec![demo], &empty_skip());
    assert_eq!(messages.len(), 4);
    assert_eq!(messages[0].role, "system");
    assert_eq!(messages[1].role, "user");
    assert!(messages[1].content.contains("What is 1+1?"));
    assert_eq!(messages[2].role, "assistant");
    assert!(messages[2].content.contains("2"));
    assert!(messages[2].content.contains("[[ ## completed ## ]]"));
    assert_eq!(messages[3].role, "user");
    assert!(messages[3].content.contains("What is 3+3?"));
}

#[test]
fn test_parse_output_with_markers() {
    let adapter = ChatAdapter::new();
    let sig = Signature::from_string("question -> answer, confidence").unwrap();
    let output = "[[ ## answer ## ]]\n42\n\n[[ ## confidence ## ]]\nhigh";
    let parsed = adapter.parse_output(output, &sig, &empty_skip()).unwrap();
    assert_eq!(parsed.get("answer").unwrap().as_str(), Some("42"));
    assert_eq!(parsed.get("confidence").unwrap().as_str(), Some("high"));
}

#[test]
fn test_parse_output_without_markers() {
    let adapter = ChatAdapter::new();
    let sig = test_sig();
    let output = "The answer is 42";
    let parsed = adapter.parse_output(output, &sig, &empty_skip()).unwrap();
    assert_eq!(parsed.get("answer").unwrap().as_str(), Some("The answer is 42"));
}

#[test]
fn test_parse_output_multiline_values() {
    let adapter = ChatAdapter::new();
    let sig = Signature::from_string("q -> reasoning, answer").unwrap();
    let output = "[[ ## reasoning ## ]]\nFirst, I need to think.\nThen, I compute.\n\n[[ ## answer ## ]]\n42";
    let parsed = adapter.parse_output(output, &sig, &empty_skip()).unwrap();
    assert!(parsed.get("reasoning").unwrap()
        .as_str()
        .unwrap()
        .contains("First, I need to think."));
    assert_eq!(parsed.get("answer").unwrap().as_str(), Some("42"));
}

#[test]
fn adapter_test_system_message_with_instructions() {
    let adapter = ChatAdapter::new();
    let sig = Signature::from_string("question -> answer")
        .unwrap()
        .with_instructions("Answer concisely");
    let msg = adapter.format_system_message(&sig, &empty_skip());
    assert!(msg.contains("Answer concisely"));
}

#[test]
fn test_system_message_with_field_descriptions() {
    let adapter = ChatAdapter::new();
    let sig = Signature::define()
        .input_with_desc("question", "the question to answer")
        .output_with_desc("answer", "the final answer")
        .build();
    let msg = adapter.format_system_message(&sig, &empty_skip());
    assert!(msg.contains("the question to answer"));
    assert!(msg.contains("the final answer"));
}

#[test]
fn test_cross_validation_system_message_simple() {
    let adapter = ChatAdapter::new();
    let sig = Signature::from_string("question -> answer").unwrap();
    let msg = adapter.format_system_message(&sig, &empty_skip());
    let expected = "Your input fields are:\n\
        1. `question` (str):\n\
        Your output fields are:\n\
        1. `answer` (str):\n\
        All interactions will be structured in the following way, with the appropriate values filled in.\n\
        \n\
        [[ ## question ## ]]\n\
        {question}\n\
        \n\
        [[ ## answer ## ]]\n\
        {answer}\n\
        \n\
        [[ ## completed ## ]]\n\
        In adhering to this structure, your objective is: \n\
        \x20       Given the fields `question`, produce the fields `answer`.";
    assert_eq!(msg, expected);
}

#[test]
fn test_cross_validation_system_message_multi_field() {
    let adapter = ChatAdapter::new();
    let sig = Signature::from_string("question, context -> reasoning, answer").unwrap();
    let msg = adapter.format_system_message(&sig, &empty_skip());
    assert!(msg.contains("1. `question` (str): \n2. `context` (str):"));
    assert!(msg.contains("1. `reasoning` (str): \n2. `answer` (str):"));
}

#[test]
fn test_cross_validation_user_message_simple() {
    let adapter = ChatAdapter::new();
    let sig = Signature::from_string("question -> answer").unwrap();
    let inputs = Example::new().field("question", "What is 2+2?");
    let msg = adapter.format_user_message(&sig, &inputs, &empty_skip());

    let expected = "[[ ## question ## ]]\n\
        What is 2+2?\n\
        \n\
        Respond with the corresponding output fields, starting with the field `[[ ## answer ## ]]`, and then ending with the marker for `[[ ## completed ## ]]`.";
    assert_eq!(msg, expected);
}

#[test]
fn test_cross_validation_user_message_multi_field() {
    let adapter = ChatAdapter::new();
    let sig = Signature::from_string("question, context -> reasoning, answer").unwrap();
    let inputs = Example::new()
        .field("question", "What color?")
        .field("context", "The sky is blue.");
    let msg = adapter.format_user_message(&sig, &inputs, &empty_skip());

    let expected = "[[ ## question ## ]]\n\
        What color?\n\
        \n\
        [[ ## context ## ]]\n\
        The sky is blue.\n\
        \n\
        Respond with the corresponding output fields, starting with the field `[[ ## reasoning ## ]]`, then `[[ ## answer ## ]]`, and then ending with the marker for `[[ ## completed ## ]]`.";
    assert_eq!(msg, expected);
}

#[test]
fn test_cross_validation_demo_messages() {
    let adapter = ChatAdapter::new();
    let sig = Signature::from_string("question -> answer").unwrap();
    let inputs = Example::new().field("question", "What is 2+2?");
    let demo1 = Example::new()
        .field("question", "What is 1+1?")
        .field("answer", "2");
    let demo2 = Example::new()
        .field("question", "What is 3+3?")
        .field("answer", "6");
    let messages = adapter.format_messages(&sig, &inputs, &vec![demo1, demo2], &empty_skip());
    assert_eq!(messages.len(), 6);
    assert_eq!(messages[0].role, "system");
    assert_eq!(messages[1].role, "user");
    assert_eq!(messages[1].content, "[[ ## question ## ]]\nWhat is 1+1?");
    assert_eq!(messages[2].role, "assistant");
    assert_eq!(
        messages[2].content,
        "[[ ## answer ## ]]\n2\n\n[[ ## completed ## ]]\n"
    );
    assert_eq!(messages[3].role, "user");
    assert_eq!(messages[3].content, "[[ ## question ## ]]\nWhat is 3+3?");
    assert_eq!(messages[4].role, "assistant");
    assert_eq!(
        messages[4].content,
        "[[ ## answer ## ]]\n6\n\n[[ ## completed ## ]]\n"
    );
    assert_eq!(messages[5].role, "user");
}

#[test]
fn test_cross_validation_parse_simple() {
    let adapter = ChatAdapter::new();
    let sig = Signature::from_string("question -> answer").unwrap();
    let response = "[[ ## answer ## ]]\n4\n\n[[ ## completed ## ]]";
    let parsed = adapter.parse_output(response, &sig, &empty_skip()).unwrap();
    assert_eq!(parsed.get("answer").unwrap().as_str(), Some("4"));
}

#[test]
fn test_cross_validation_parse_multi_field() {
    let adapter = ChatAdapter::new();
    let sig = Signature::from_string("question -> reasoning, answer").unwrap();
    let response =
        "[[ ## reasoning ## ]]\n2+2 equals 4\n\n[[ ## answer ## ]]\n4\n\n[[ ## completed ## ]]";
    let parsed = adapter.parse_output(response, &sig, &empty_skip()).unwrap();
    assert_eq!(parsed.get("reasoning").unwrap().as_str(), Some("2+2 equals 4"));
    assert_eq!(parsed.get("answer").unwrap().as_str(), Some("4"));
}

#[test]
fn test_cross_validation_parse_multiline() {
    let adapter = ChatAdapter::new();
    let sig = Signature::from_string("question -> answer").unwrap();
    let response = "[[ ## answer ## ]]\nLine 1\nLine 2\nLine 3\n\n[[ ## completed ## ]]";
    let parsed = adapter.parse_output(response, &sig, &empty_skip()).unwrap();
    assert_eq!(parsed.get("answer").unwrap().as_str(), Some("Line 1\nLine 2\nLine 3"));
}

#[test]
fn test_skip_output_fields_in_system_message() {
    let adapter = ChatAdapter::new();
    let sig = Signature::from_string("question -> answer, citations").unwrap();
    let mut skip = Vec::new();
    skip.push("citations".to_string());
    let msg = adapter.format_system_message(&sig, &skip);
    assert!(msg.contains("Your output fields are:\n1. `answer` (str):"));
    assert!(!msg.contains("[[ ## citations ## ]]"));
    assert!(msg.contains("[[ ## answer ## ]]"));
}

#[test]
fn test_skip_output_fields_in_parse() {
    let adapter = ChatAdapter::new();
    let sig = Signature::from_string("question -> answer, citations").unwrap();
    let mut skip = Vec::new();
    skip.push("citations".to_string());
    let output = "[[ ## answer ## ]]\n42\n\n[[ ## completed ## ]]";
    let parsed = adapter.parse_output(output, &sig, &skip).unwrap();
    assert_eq!(parsed.get("answer").unwrap().as_str(), Some("42"));
    assert!(!parsed.contains_key("citations"));
}

#[test]
fn test_compute_native_field_names() {
    let adapter = ChatAdapter::with_native_response_types(vec![
        NativeResponseType::Citations { field_name: "citations".to_string() },
    ]);
    let sig = Signature::from_string("question -> answer, citations").unwrap();
    let names = adapter.compute_native_field_names(&sig);
    assert!(names.iter().any(|n| n == "citations"));
    assert!(!names.iter().any(|n| n == "answer"));
}

#[test]
fn test_compute_native_field_names_ignores_missing() {
    let adapter = ChatAdapter::with_native_response_types(vec![
        NativeResponseType::Citations { field_name: "citations".to_string() },
    ]);
    let sig = Signature::from_string("question -> answer").unwrap();
    let names = adapter.compute_native_field_names(&sig);
    assert!(names.is_empty());
}

#[test]
fn markers_are_found_at_bytes() {
    assert_eq!(find_next_marker("\u{e9}[[ ## x ## ]]"), Some(2));
    assert_eq!(find_next_marker("ab[[ ## x ## ]][[ ## y ## ]]"), Some(2));
    assert_eq!(find_next_marker("ab[[ ## x"), None);
    assert_eq!(find_next_marker(" ## ]] [[ ## x"), None);
}
