use dspy_core::json::Json;
use dspy_core::repl_types::{
    create_repl_variable, format_repl_variable, try_create_repl_variable, REPLHistory,
};

fn j(text: &str) -> Json {
    Json::parse(text).unwrap()
}

#[test]
fn test_repl_history_starts_empty() {
    let history = REPLHistory::new();
    assert_eq!(history.len(), 0);
    assert!(history.is_empty());
    assert_eq!(
        history.format(None),
        "You have not interacted with the REPL environment yet."
    );
}

#[test]
fn test_repl_history_append_returns_new() {
    let h1 = REPLHistory::new();
    let h2 = h1.append("Let me check", "print(1)", "1");

    assert_eq!(h1.len(), 0);
    assert_eq!(h2.len(), 1);
    assert_eq!(h2.entries()[0].reasoning, "Let me check");
    assert_eq!(h2.entries()[0].code, "print(1)");
    assert_eq!(h2.entries()[0].output, "1");
}

#[test]
fn test_repl_history_format_includes_all() {
    let history = REPLHistory::new()
        .append("Step 1", "x = 1", "no output")
        .append("Step 2", "print(x + 1)", "2");

    let formatted = history.format(None);
    assert!(formatted.contains("=== Step 1 ==="));
    assert!(formatted.contains("=== Step 2 ==="));
    assert!(formatted.contains("x = 1"));
    assert!(formatted.contains("print(x + 1)"));
}

#[test]
fn test_repl_history_format_truncates() {
    let long_output = "x".repeat(10000);
    let history = REPLHistory::new().append("", "print('x' * 10000)", &long_output);

    let formatted = history.format(Some(100));
    assert!(formatted.contains("truncated"));
}

#[test]
fn test_repl_history_to_json() {
    let history = REPLHistory::new().append("r", "c", "o");
    let json = history.to_json();
    let arr = json.as_array().unwrap();
    assert_eq!(arr.len(), 1);
    assert_eq!(arr[0].get("reasoning").unwrap().as_str(), Some("r"));
    assert_eq!(arr[0].get("code").unwrap().as_str(), Some("c"));
    assert_eq!(arr[0].get("output").unwrap().as_str(), Some("o"));
}

#[test]
fn test_create_repl_variable_string() {
    let v = create_repl_variable(
        "msg",
        &j(r#""hello world""#),
        None,
        None,
        None,
    );
    assert_eq!(v.name, "msg");
    assert_eq!(v.type_label, "string");
    assert_eq!(v.total_length, 11);
    assert_eq!(v.preview, "hello world");
}

#[test]
fn test_create_repl_variable_object() {
    let v = create_repl_variable(
        "data",
        &j(r#"{"key": "value"}"#),
        None,
        None,
        None,
    );
    assert_eq!(v.type_label, "dict");
    assert!(v.preview.contains("key"));
}

#[test]
fn test_create_repl_variable_array() {
    let v = create_repl_variable("items", &j(r#"[1, 2, 3]"#), None, None, None);
    assert_eq!(v.type_label, "list");
}

#[test]
fn test_create_repl_variable_truncates() {
    let long_str = "x".repeat(1000);
    let v = create_repl_variable(
        "big",
        &Json::Text(long_str),
        None,
        None,
        Some(100),
    );
    assert!(v.preview.len() < 110);
    assert!(v.preview.contains("..."));
    assert_eq!(v.total_length, 1000);
}

#[test]
fn test_create_repl_variable_with_desc() {
    let v = create_repl_variable(
        "q",
        &j(r#""test""#),
        Some("The question"),
        None,
        None,
    );
    assert_eq!(v.desc, "The question");
}

#[test]
fn test_format_repl_variable_includes_metadata() {
    let v = create_repl_variable(
        "ctx",
        &j(r#""some context""#),
        Some("The context to analyze"),
        Some("max 1000 chars"),
        None,
    );
    let formatted = format_repl_variable(&v);
    assert!(formatted.contains("`ctx`"));
    assert!(formatted.contains("string"));
    assert!(formatted.contains("The context to analyze"));
    assert!(formatted.contains("max 1000 chars"));
}

#[test]
fn a_preview_is_not_cut_inside_a_character() {
    let text = Json::Text("\u{e9}".repeat(10));
    assert!(try_create_repl_variable("v", &text, None, None, Some(5)).is_none());
    let v = try_create_repl_variable("v", &text, None, None, Some(8)).unwrap();
    assert!(v.preview.contains("..."));
}

#[test]
fn a_history_says_whether_it_can_be_cut() {
    let history = REPLHistory::new().append("", "", &"\u{e9}".repeat(10));
    assert!(!history.can_format(5));
    assert!(history.can_format(8));
    assert!(history.can_format(1000));
}
