use dspy_core::error::{DspyError, Result};
use dspy_core::example::Example;
use dspy_core::parallel::{ParallelConfig, ParallelResult};
use dspy_core::prediction::Prediction;

fn answer(text: &str) -> Result<Prediction> {
    Ok(Prediction::from_example(Example::new().field("answer", text)))
}

fn failure() -> Result<Prediction> {
    Err(DspyError::Other("intentional failure".to_string()))
}

fn execute(outcomes: Vec<Result<Prediction>>, config: &ParallelConfig) -> ParallelResult {
    let mut result = ParallelResult::new();
    for outcome in outcomes {
        if result.runs_next(config) {
            result.on_outcome(outcome);
        } else {
            result.on_skip();
        }
    }
    result
}

#[test]
fn parallel_test_parallel_basic() {
    let result = execute(vec![answer("A"), answer("B")], &ParallelConfig::default());
    assert_eq!(result.results.len(), 2);
    assert_eq!(result.results[0].as_ref().unwrap().get_str("answer"), Some("A"));
    assert_eq!(result.results[1].as_ref().unwrap().get_str("answer"), Some("B"));
    assert!(result.failed_indices.is_empty());
}

#[test]
fn test_parallel_with_failures() {
    let outcomes = vec![answer("ok"), failure(), answer("also ok")];
    let result = execute(outcomes, &ParallelConfig::default());
    assert_eq!(result.results.len(), 3);
    assert!(result.results[0].is_some());
    assert!(result.results[1].is_none());
    assert!(result.results[2].is_some());
    assert_eq!(result.failed_indices, vec![1]);
    assert_eq!(result.exceptions, vec!["intentional failure"]);
}

#[test]
fn test_parallel_max_errors() {
    let config = ParallelConfig { max_errors: 1, ..Default::default() };
    let result = execute(vec![failure(), failure(), answer("ok")], &config);
    assert_eq!(result.results.len(), 3);
}
