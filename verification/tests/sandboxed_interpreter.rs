use dspy_core::interpreter::ExecutionResult;
use dspy_core::json::Json;
use dspy_core::sandboxed_interpreter::{
    parse_response, received, shutdown_request, start_arguments, take_line, tool_answer,
    tool_failure, unknown_tool, SandboxStep, SandboxedInterpreter, SandboxedInterpreterOptions,
};
use dspy_core::strmap::StrMap;

fn j(text: &str) -> Json {
    Json::parse(text).unwrap()
}

fn with_tool(name: &str) -> SandboxedInterpreter<()> {
    let mut options = SandboxedInterpreterOptions::default_options();
    options.tools.insert(name.to_string(), ());
    SandboxedInterpreter::new(options)
}

#[test]
fn requests_are_numbered() {
    let mut sandbox = with_tool("add");
    assert_eq!(sandbox.deno_command, "deno");
    assert_eq!(
        sandbox.ping_request(),
        "{\"id\":1,\"jsonrpc\":\"2.0\",\"method\":\"ping\",\"params\":{}}\n"
    );
    assert_eq!(
        sandbox.register_request().unwrap(),
        "{\"id\":2,\"jsonrpc\":\"2.0\",\"method\":\"register\",\"params\":{\"tools\":[{\"name\":\"add\"}]}}\n"
    );
    assert!(!sandbox.registered);
    sandbox.mark_registered();
    assert!(sandbox.register_request().is_none());
    sandbox.forget_tools();
    assert!(sandbox.register_request().is_some());
    let (id, line) = sandbox.execute_request("print(1)", None);
    assert_eq!(id, 4);
    assert_eq!(
        line,
        "{\"id\":4,\"jsonrpc\":\"2.0\",\"method\":\"execute\",\"params\":{\"code\":\"print(1)\"}}\n"
    );
}

#[test]
fn a_sandbox_without_tools_is_told_of_none() {
    let mut sandbox: SandboxedInterpreter<()> = SandboxedInterpreter::default_new();
    assert!(sandbox.register_request().is_none());
    assert!(sandbox.registered);
    assert_eq!(sandbox.request_id, 0);
}

#[test]
fn variables_go_with_the_code() {
    let mut sandbox: SandboxedInterpreter<()> = SandboxedInterpreter::default_new();
    let mut variables: StrMap<Json> = StrMap::new();
    let (_, line) = sandbox.execute_request("x", Some(&variables));
    assert!(!line.contains("variables"));
    variables.insert("msg".to_string(), Json::text("hi"));
    let (_, line) = sandbox.execute_request("x", Some(&variables));
    let message = j(line.trim());
    let sent = message.get("params").unwrap().get("variables").unwrap();
    assert_eq!(sent.get_str("msg"), Some("hi"));
}

#[test]
fn an_answer_ends_the_run() {
    match take_line(r#"{"id": 3, "result": {"output": "hello\n"}}"#, 3) {
        SandboxStep::Done(ExecutionResult::Output(Some(s))) => assert_eq!(s, "hello\n"),
        other => panic!("{other:?}"),
    }
    assert!(matches!(
        take_line(r#"{"id": 3, "result": {}}"#, 3),
        SandboxStep::Done(ExecutionResult::Output(None))
    ));
    match take_line(r#"{"id": 3, "result": {"final": {"answer": "yes"}}}"#, 3) {
        SandboxStep::Done(ExecutionResult::Final(f)) => {
            assert_eq!(f.output.get_str("answer"), Some("yes"))
        }
        other => panic!("{other:?}"),
    }
    assert!(matches!(take_line(r#"{"id": 2, "result": {}}"#, 3), SandboxStep::Wait));
    assert!(matches!(take_line("{}", 3), SandboxStep::Wait));
}

#[test]
fn failures_name_their_type() {
    let text = |line: &str| match take_line(line, 1) {
        SandboxStep::Fail(e) => e.message,
        other => panic!("{other:?}"),
    };
    assert_eq!(
        text(r#"{"error": {"message": "m", "data": {"type": "NameError", "args": "x"}}}"#),
        "NameError: x"
    );
    assert_eq!(text(r#"{"error": {"message": "m"}}"#), "Unknown: m");
    assert_eq!(text(r#"{"error": {}}"#), "Unknown: Unknown error");
    assert_eq!(text("no json"), "Invalid JSON from sandbox");
}

#[test]
fn tools_are_called_and_answered() {
    let line = r#"{"method": "tool_call", "id": "t1", "params": {"name": "add", "kwargs": {"a": 3}}}"#;
    match take_line(line, 9) {
        SandboxStep::CallTool(request) => {
            assert_eq!(request.name, "add");
            assert_eq!(request.kwargs.get("a").unwrap().as_i64(), Some(3));
            assert_eq!(
                tool_answer(&request.id, &Json::text("7")),
                "{\"id\":\"t1\",\"jsonrpc\":\"2.0\",\"result\":{\"type\":\"string\",\"value\":\"7\"}}\n"
            );
            assert_eq!(
                tool_answer(&request.id, &j("[1]")),
                "{\"id\":\"t1\",\"jsonrpc\":\"2.0\",\"result\":{\"type\":\"json\",\"value\":\"[1]\"}}\n"
            );
            assert_eq!(
                tool_failure(&request.id, "bad"),
                "{\"error\":{\"code\":-32099,\"message\":\"bad\"},\"id\":\"t1\",\"jsonrpc\":\"2.0\"}\n"
            );
            assert!(unknown_tool(&request.id, "x").contains("Unknown tool: x"));
        }
        other => panic!("{other:?}"),
    }
    match take_line(r#"{"method": "tool_call"}"#, 9) {
        SandboxStep::CallTool(request) => {
            assert_eq!(request.name, "");
            assert!(request.kwargs.is_empty());
            assert!(request.id.is_null());
        }
        other => panic!("{other:?}"),
    }
}

#[test]
fn plain_requests_are_answered() {
    assert!(parse_response(r#"{"result": "pong"}"#).is_ok());
    assert_eq!(parse_response(r#"{"error": {"message": "no"}}"#).unwrap_err().message, "no");
    assert_eq!(parse_response(r#"{"error": {}}"#).unwrap_err().message, "Unknown error");
    assert!(parse_response("x").unwrap_err().message.starts_with("Parse error: "));
    assert_eq!(received(" {} \n").unwrap(), "{}");
    assert_eq!(received("").unwrap_err().message, "No output from sandbox subprocess");
}

#[test]
fn a_sandbox_is_started_and_ended() {
    assert_eq!(
        start_arguments("dir", "dir/run.ts"),
        vec!["run", "--allow-read=dir", "--node-modules-dir=auto", "dir/run.ts"]
    );
    assert_eq!(
        shutdown_request(),
        "{\"id\":null,\"jsonrpc\":\"2.0\",\"method\":\"shutdown\",\"params\":{}}\n"
    );
}
