use dspy_core::interpreter::ExecutionResult;
use dspy_core::json::Json;
use dspy_core::mock_interpreter::{MockErrorType, MockInterpreter, MockResponse};

fn j(text: &str) -> Json {
    Json::parse(text).unwrap()
}

#[test]
fn test_mock_output() {
    let mut mock = MockInterpreter::new(vec![MockResponse::output("hello")]);
    let result = mock.execute().unwrap();
    match result {
        ExecutionResult::Output(Some(s)) => assert_eq!(s, "hello"),
        _ => panic!("Expected output"),
    }
    assert_eq!(mock.call_count(), 1);
}

#[test]
fn test_mock_final_output() {
    let mut mock = MockInterpreter::new(vec![MockResponse::final_output(
        j(r#"{"answer": "42"}"#),
    )]);
    let result = mock.execute().unwrap();
    match result {
        ExecutionResult::Final(fo) => {
            assert_eq!(fo.output.get_str("answer"), Some("42"));
        }
        _ => panic!("Expected FinalOutput"),
    }
}

#[test]
fn test_mock_error() {
    let mut mock = MockInterpreter::new(vec![MockResponse::error("name 'x' not defined")]);
    let result = mock.execute();
    assert!(result.is_err());
    let err = result.unwrap_err();
    assert!(err.message.contains("name 'x' not defined"));
}

#[test]
fn test_mock_exhausted_returns_none() {
    let mut mock = MockInterpreter::new(vec![]);
    let result = mock.execute().unwrap();
    match result {
        ExecutionResult::Output(None) => {}
        _ => panic!("Expected None output when exhausted"),
    }
}

#[test]
fn test_mock_multiple_calls() {
    let mut mock = MockInterpreter::new(vec![
        MockResponse::output("first"),
        MockResponse::error("oops"),
        MockResponse::output("third"),
    ]);
    let r1 = mock.execute().unwrap();
    match r1 {
        ExecutionResult::Output(Some(s)) => assert_eq!(s, "first"),
        _ => panic!("Expected first output"),
    }
    let r2 = mock.execute();
    assert!(r2.is_err());
    let r3 = mock.execute().unwrap();
    match r3 {
        ExecutionResult::Output(Some(s)) => assert_eq!(s, "third"),
        _ => panic!("Expected third output"),
    }

    assert_eq!(mock.call_count(), 3);
}

#[test]
fn test_mock_shutdown_resets_index() {
    let mut mock = MockInterpreter::new(vec![MockResponse::output("hello")]);
    let _ = mock.execute();
    assert_eq!(mock.call_count(), 1);

    mock.shutdown().unwrap();
    assert_eq!(mock.call_count(), 1);
    let result = mock.execute().unwrap();
    match result {
        ExecutionResult::Output(Some(s)) => assert_eq!(s, "hello"),
        _ => panic!("Expected replay"),
    }
    assert_eq!(mock.call_count(), 2);
}

#[test]
fn test_mock_auto_starts() {
    let mut mock = MockInterpreter::new(vec![MockResponse::output("auto")]);
    let result = mock.execute().unwrap();
    match result {
        ExecutionResult::Output(Some(s)) => assert_eq!(s, "auto"),
        _ => panic!("Expected auto-start output"),
    }
}

#[test]
fn errors_name_their_type() {
    let mut mock = MockInterpreter::new(vec![MockResponse::error_with_type(
        "unexpected end",
        MockErrorType::SyntaxError,
    )]);
    let err = mock.execute().unwrap_err();
    assert!(err.message.contains("unexpected end"));
    mock.reset();
    assert!(mock.execute().is_err());
}

#[test]
fn calls_are_counted_after_the_script_has_ended() {
    let mut mock = MockInterpreter::new(vec![]);
    assert!(mock.execute().is_ok());
    assert_eq!(mock.call_count(), 1);
    mock.shutdown().unwrap();
    assert!(mock.execute().is_ok());
    assert_eq!(mock.call_count(), 2);
}
