use dspy_core::best_of_n::Attempts;
use dspy_core::error::{DspyError, Result};
use dspy_core::example::Example;
use dspy_core::prediction::Prediction;

/// A key that orders floating-point numbers as they are; there is none for a NaN.
fn key(x: f64) -> Option<i64> {
    if x.is_nan() {
        return None;
    }
    let bits = x.to_bits() as i64;
    Some(if bits >= 0 { bits } else { i64::MIN.wrapping_sub(bits) })
}

fn answer(text: &str) -> Prediction {
    Prediction::from_example(Example::new().field("answer", text))
}

/// Runs a module until its reward is high enough; the result comes with the number of
/// runs.
fn forward<M, W>(
    mut module: M,
    n: usize,
    reward: W,
    threshold: f64,
    fail_count: Option<usize>,
    name: &str,
) -> (Result<Prediction>, usize)
where
    M: FnMut(usize) -> Result<Prediction>,
    W: Fn(&Prediction) -> f64,
{
    let mut attempts = Attempts::new(n, key(threshold), fail_count);
    let mut runs: usize = 0;
    while attempts.wants_more() {
        runs += 1;
        match module(runs) {
            Ok(p) => {
                let r = reward(&p);
                attempts.on_prediction(p, key(r));
            }
            Err(e) => {
                if let Err(e) = attempts.on_error(e) {
                    return (Err(e), runs);
                }
            }
        }
    }
    (attempts.finish(name), runs)
}

#[test]
fn test_best_of_n_returns_best() {
    let reward = |pred: &Prediction| if pred.get_str("answer") == Some("42") { 1.0 } else { 0.0 };
    let (result, _) = forward(|_| Ok(answer("42")), 3, reward, 1.0, None, "BestOfN");
    assert_eq!(result.unwrap().get_str("answer"), Some("42"));
}

#[test]
fn test_best_of_n_stops_at_threshold() {
    let (result, runs) = forward(|_| Ok(answer("yes")), 10, |_| 0.8, 0.5, None, "BestOfN");
    assert_eq!(result.unwrap().get_str("answer"), Some("yes"));
    assert_eq!(runs, 1);
}

#[test]
fn test_refine_picks_best() {
    let answers = ["bad", "good", "ok"];
    let reward = |pred: &Prediction| match pred.get_str("answer") {
        Some("good") => 1.0,
        Some("ok") => 0.5,
        _ => 0.0,
    };
    let module = |run: usize| Ok(answer(answers[(run - 1) % 3]));
    let (result, _) = forward(module, 3, reward, 2.0, None, "Refine");
    assert_eq!(result.unwrap().get_str("answer"), Some("good"));
}

#[test]
fn test_refine_stops_at_threshold() {
    let answers = ["ok", "great"];
    let reward =
        |pred: &Prediction| if pred.get_str("answer") == Some("great") { 1.0 } else { 0.3 };
    let module = |run: usize| Ok(answer(answers[(run - 1) % 2]));
    let (result, runs) = forward(module, 10, reward, 0.9, None, "Refine");
    assert_eq!(result.unwrap().get_str("answer"), Some("great"));
    assert_eq!(runs, 2);
}

fn failing(fail_until: usize) -> impl FnMut(usize) -> Result<Prediction> {
    move |run| {
        if run <= fail_until {
            Err(DspyError::Other(format!("Failing on attempt {}", run)))
        } else {
            Ok(answer("success"))
        }
    }
}

#[test]
fn test_refine_handles_failures() {
    let (result, _) = forward(failing(2), 5, |_| 1.0, 0.5, None, "Refine");
    assert_eq!(result.unwrap().get_str("answer"), Some("success"));
}

#[test]
fn test_refine_all_fail() {
    let (result, _) = forward(failing(100), 3, |_| 1.0, 0.5, Some(3), "Refine");
    assert!(result.is_err());
}

#[test]
fn too_many_failures_end_the_attempts() {
    let (result, runs) = forward(failing(100), 10, |_| 1.0, 0.5, Some(1), "Refine");
    assert_eq!(result.unwrap_err().message(), "Failing on attempt 2");
    assert_eq!(runs, 2);
}

#[test]
fn rewards_that_are_no_numbers_never_win() {
    let (result, runs) = forward(|_| Ok(answer("x")), 2, |_| f64::NAN, 0.5, None, "BestOfN");
    assert!(result.is_err());
    assert_eq!(runs, 2);
}
