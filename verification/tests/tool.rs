use dspy_core::json::Json;
use dspy_core::strmap::StrMap;
use dspy_core::tool::{Tool, ToolArg, ToolCall, ToolCalls};

fn arg(description: Option<&str>) -> ToolArg {
    ToolArg {
        arg_type: "string".to_string(),
        description: description.map(|d| d.to_string()),
        default: None,
    }
}

fn j(text: &str) -> Json {
    Json::parse(text).unwrap()
}

#[test]
fn tool_test_tool_call() {
    let number = |description: &str| ToolArg {
        arg_type: "number".to_string(),
        description: Some(description.to_string()),
        default: None,
    };
    let mut args = StrMap::new();
    args.insert("x".to_string(), number("First number"));
    args.insert("y".to_string(), number("Second number"));
    let tool = Tool::new("add", "Add two numbers", args);
    let mut call_args = StrMap::new();
    call_args.insert("x".to_string(), j("3"));
    call_args.insert("y".to_string(), j("4"));
    assert!(tool.validate_args(&call_args).is_ok());
}

#[test]
fn test_tool_invalid_arg() {
    let tool = Tool::new("noop", "Does nothing", StrMap::new());
    let mut call_args = StrMap::new();
    call_args.insert("unknown".to_string(), j(r#""val""#));
    let result = tool.validate_args(&call_args);
    assert!(result.is_err());
}

#[test]
fn test_tool_format_as_function() {
    let mut args = StrMap::new();
    args.insert("query".to_string(), arg(Some("Search query")));
    let tool = Tool::new("search", "Search the web", args);
    let schema = tool.format_as_function();
    assert_eq!(schema.get("function").unwrap().get_str("name"), Some("search"));
    assert_eq!(schema.get("function").unwrap().get_str("description"), Some("Search the web"));
}

#[test]
fn test_tool_call_format() {
    let mut args = StrMap::new();
    args.insert("q".to_string(), j(r#""hello""#));
    let tc = ToolCall::new("search", args);
    let formatted = tc.format();
    assert_eq!(formatted.get("function").unwrap().get_str("name"), Some("search"));
}

#[test]
fn test_tool_call_execute() {
    let mut tool_args = StrMap::new();
    tool_args.insert("msg".to_string(), arg(None));
    let tool = Tool::new("echo", "Echo back", tool_args);
    let mut call_args = StrMap::new();
    call_args.insert("msg".to_string(), j(r#""hello""#));
    let tc = ToolCall::new("echo", call_args);
    let found = tc.resolve(&vec![&tool]).unwrap();
    assert_eq!(found.name, "echo");
    assert!(found.validate_args(&tc.args).is_ok());
    assert_eq!(tc.args.get("msg").unwrap().as_str(), Some("hello"));
}

#[test]
fn test_tool_call_not_found() {
    let tc = ToolCall::new("nonexistent", StrMap::new());
    let result = tc.resolve(&vec![]);
    assert!(result.is_err());
}

#[test]
fn calls_are_listed_in_order() {
    let calls = ToolCalls::new(vec![
        ToolCall::new("a", StrMap::new()),
        ToolCall::new("b", StrMap::new()),
    ]);
    let text = calls.format().to_text();
    assert!(text.find("\"a\"").unwrap() < text.find("\"b\"").unwrap());
}
