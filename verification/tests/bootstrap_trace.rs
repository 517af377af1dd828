use dspy_core::bootstrap_trace::{bootstrap_max_errors, collect_trace_data, FailedPrediction, TraceData};
use dspy_core::evaluate::EvaluationRun;
use dspy_core::example::Example;
use dspy_core::json::JsonFloat;
use dspy_core::predict::Predict;
use dspy_core::prediction::Prediction;
use dspy_core::signature::Signature;
use dspy_core::strmap::StrMap;
use dspy_core::value::Value;

fn make_dataset(n: usize) -> Vec<Example> {
    (0..n)
        .map(|i| Example::new().field("question", format!("Q{i}")).with_inputs(&["question"]))
        .collect()
}

fn bootstrap(dataset: &[Example], metric: Option<fn(&Example, &Prediction) -> f64>) -> Vec<TraceData<f64>> {
    let mut predict = Predict::new(Signature::from_string("question -> answer").unwrap());
    predict.set_train(true);
    let mut kept = Vec::new();
    let mut run = EvaluationRun::new(bootstrap_max_errors(dataset.len()));
    for example in dataset {
        let mut fields: StrMap<Value> = StrMap::new();
        fields.insert("answer".to_string(), Value::String("42".to_string()));
        let (prediction, _) = predict.finish(&run.inputs_of(example), vec![fields], &mut kept);
        let score = metric.map(|m| m(example, &prediction)).unwrap_or(1.0);
        run.on_prediction(example, prediction, score);
    }
    collect_trace_data(run.results, &predict.get_traces(&kept), 1, metric.is_some())
}

#[test]
fn test_failed_prediction() {
    let fp = FailedPrediction::new("raw output", None);
    assert_eq!(fp.completion_text, "raw output");
    assert!(fp.format_reward.is_none());
    let fp2 = FailedPrediction::new("raw", JsonFloat::parse("-1.0"));
    assert_eq!(fp2.format_reward.unwrap().as_text(), "-1.0");
}

#[test]
fn test_bootstrap_trace_basic() {
    let traces = bootstrap(&make_dataset(2), None);
    assert_eq!(traces.len(), 2);
    for td in &traces {
        assert!(!td.trace.is_empty());
    }
}

#[test]
fn test_bootstrap_trace_with_metric() {
    let dataset = vec![
        Example::new().field("question", "Q1").field("answer", "42").with_inputs(&["question"]),
    ];
    let metric = |example: &Example, prediction: &Prediction| {
        let expected = example.get_str("answer").unwrap_or("");
        let got = prediction.get_str("answer").unwrap_or("");
        if expected == got {
            1.0
        } else {
            0.0
        }
    };
    let traces = bootstrap(&dataset, Some(metric));
    assert_eq!(traces.len(), 1);
    assert_eq!(traces[0].score, Some(1.0));
}

#[test]
fn test_bootstrap_trace_empty_dataset() {
    let traces = bootstrap(&[], None);
    assert!(traces.is_empty());
}

#[test]
fn test_bootstrap_trace_example_ind() {
    let traces = bootstrap(&make_dataset(3), None);
    assert_eq!(traces.len(), 3);
    for (i, td) in traces.iter().enumerate() {
        assert_eq!(td.example_ind, i);
    }
}

#[test]
fn each_example_has_its_own_trace() {
    let traces = bootstrap(&make_dataset(3), None);
    assert_eq!(traces[2].trace.len(), 1);
    assert_eq!(traces[2].trace[0].inputs.get_str("question"), Some("Q2"));
    assert!(traces[2].score.is_none());
}
