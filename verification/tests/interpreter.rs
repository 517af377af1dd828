use dspy_core::interpreter::{CodeInterpreterError, ExecutionResult, FinalOutput};
use dspy_core::json::Json;

fn j(text: &str) -> Json {
    Json::parse(text).unwrap()
}

#[test]
fn test_code_interpreter_error() {
    let err = CodeInterpreterError::new("test error");
    assert_eq!(err.message, "test error");
    assert_eq!(err.to_text(), "test error");
}

#[test]
fn test_final_output_display() {
    let fo = FinalOutput::new(j(r#"{"answer": "42"}"#));
    let display = fo.to_text();
    assert!(display.contains("42"));
}

#[test]
fn test_execution_result_variants() {
    let output = ExecutionResult::Output(Some("hello".to_string()));
    match output {
        ExecutionResult::Output(Some(s)) => assert_eq!(s, "hello"),
        _ => panic!("Expected Output"),
    }

    let final_out = ExecutionResult::Final(FinalOutput::new(j(r#"42"#)));
    match final_out {
        ExecutionResult::Final(fo) => assert_eq!(fo.output.as_i64(), Some(42)),
        _ => panic!("Expected Final"),
    }
}

#[test]
fn a_failure_becomes_an_error() {
    let error = CodeInterpreterError::new("boom").into_dspy_error();
    assert_eq!(error.message(), "boom");
}
