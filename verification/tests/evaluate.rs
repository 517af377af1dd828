use dspy_core::error::{DspyError, Result};
use dspy_core::evaluate::{EvaluateConfig, EvaluationRun};
use dspy_core::example::Example;
use dspy_core::prediction::Prediction;

/// Scores in percent, with the predictions and the number of failures.
fn evaluate<M, W>(
    devset: &[Example],
    module: M,
    metric: W,
    max_errors: usize,
) -> Result<(f64, EvaluationRun<f64>)>
where
    M: Fn(&Example) -> Result<Prediction>,
    W: Fn(&Example, &Prediction) -> f64,
{
    let config = EvaluateConfig::with_failure_score(0.0);
    let mut run = EvaluationRun::new(max_errors);
    for example in devset {
        match module(&run.inputs_of(example)) {
            Ok(prediction) => {
                let score = metric(example, &prediction);
                run.on_prediction(example, prediction, score);
            }
            Err(_) => run.on_failure(example, config.failure_score)?,
        }
    }
    let total: f64 = run.results.iter().map(|r| r.2).sum();
    let score =
        if run.results.is_empty() { 0.0 } else { 100.0 * total / run.results.len() as f64 };
    Ok((score, run))
}

fn same_answer(example: &Example, prediction: &Prediction) -> f64 {
    let expected = example.get_str("answer").unwrap_or("");
    let got = prediction.get_str("answer").unwrap_or("");
    if expected == got {
        1.0
    } else {
        0.0
    }
}

fn fixed(answer: &'static str) -> impl Fn(&Example) -> Result<Prediction> {
    move |inputs| {
        assert!(!inputs.has("answer"));
        Ok(Prediction::from_example(Example::new().field("answer", answer)))
    }
}

fn broken(_: &Example) -> Result<Prediction> {
    Err(DspyError::LMError("no model".to_string()))
}

#[test]
fn test_evaluate_basic() {
    let devset = vec![
        Example::new().field("question", "What?").field("answer", "42").with_inputs(&["question"]),
        Example::new().field("question", "Why?").field("answer", "42").with_inputs(&["question"]),
    ];
    let (score, run) = evaluate(&devset, fixed("42"), same_answer, 5).unwrap();
    assert_eq!(score, 100.0);
    assert_eq!(run.results.len(), 2);
    assert_eq!(run.errors, 0);
}

#[test]
fn test_evaluate_partial_match() {
    let devset = vec![
        Example::new().field("q", "Q1").field("answer", "yes").with_inputs(&["q"]),
        Example::new().field("q", "Q2").field("answer", "no").with_inputs(&["q"]),
    ];
    let (score, _) = evaluate(&devset, fixed("yes"), same_answer, 5).unwrap();
    assert_eq!(score, 50.0);
}

#[test]
fn test_evaluate_empty_devset() {
    let (score, run) = evaluate(&[], fixed("x"), |_, _| 1.0, 5).unwrap();
    assert_eq!(score, 0.0);
    assert!(run.results.is_empty());
}

#[test]
fn test_evaluate_with_errors() {
    let devset = vec![Example::new().field("q", "Q1").with_inputs(&["q"])];
    let (score, run) = evaluate(&devset, broken, |_, _| 1.0, 10).unwrap();
    assert_eq!(run.errors, 1);
    assert_eq!(score, 0.0);
}

#[test]
fn too_many_errors_end_an_evaluation() {
    let devset: Vec<Example> =
        (0..4).map(|_| Example::new().field("q", "x").with_inputs(&["q"])).collect();
    let error = evaluate(&devset, broken, |_, _| 1.0, 2).unwrap_err();
    assert!(matches!(error, DspyError::EvaluationError(_)));
}
