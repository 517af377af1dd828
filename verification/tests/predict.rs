use dspy_core::adapter::ChatAdapter;
use dspy_core::error::Result;
use dspy_core::example::Example;
use dspy_core::json::JsonFloat;
use dspy_core::lm::{LMConfig, LMResponse};
use dspy_core::predict::{call_config, effective_adapter, effective_lm, Predict, Trace};
use dspy_core::prediction::Prediction;
use dspy_core::signature::Signature;

/// A model that always gives the same replies.
struct MockLM {
    responses: Vec<String>,
}

impl MockLM {
    fn new(responses: Vec<&str>) -> Self {
        Self { responses: responses.into_iter().map(|s| s.to_string()).collect() }
    }

    fn call(&self) -> Vec<LMResponse> {
        self.responses.iter().map(|text| LMResponse::new(text.clone(), None)).collect()
    }
}

fn forward(
    predict: &Predict,
    traces: &mut Vec<Trace>,
    own: &Option<MockLM>,
    settings: &Option<MockLM>,
    args: &Example,
) -> Result<Prediction> {
    let lm = effective_lm(own, settings)?;
    let adapter = ChatAdapter::new();
    let messages = adapter.format_messages(&predict.signature, args, &predict.demos, &Vec::new());
    assert_eq!(messages.len(), 2 + 2 * predict.demos.len());
    let mut parsed = Vec::new();
    for reply in lm.call() {
        parsed.push(adapter.parse_reply(&reply.text, None, &predict.signature)?);
    }
    Ok(predict.finish(args, parsed, traces).0)
}

fn temperature(config: &LMConfig) -> Option<String> {
    config.temperature.as_ref().map(|t| t.as_text().to_string())
}

#[test]
fn predict_test_dump_load_state() {
    let sig = Signature::from_string("q -> a").unwrap();
    let mut predict = Predict::new(sig);
    predict
        .demos
        .push(Example::new().field("q", "demo").field("a", "ans"));

    let state = predict.dump_state();
    let mut predict2 = Predict::new(Signature::from_string("x -> y").unwrap());
    predict2.load_state(&state).unwrap();

    assert_eq!(predict2.demos.len(), 1);
    assert_eq!(predict2.demos[0].get_str("q"), Some("demo"));
}

#[test]
fn test_named_predictors() {
    let sig = Signature::from_string("q -> a").unwrap();
    let predict = Predict::new(sig);
    let preds = predict.named_predictors();
    assert_eq!(preds.len(), 1);
    assert_eq!(preds[0].0, "self");
}

#[test]
fn test_reset() {
    let sig = Signature::from_string("q -> a").unwrap();
    let mut predict = Predict::new(sig);
    predict.demos.push(Example::new().field("q", "demo"));
    predict.reset(&mut Vec::new());
    assert!(predict.demos.is_empty());
}

#[test]
fn test_predict_forward() {
    let sig = Signature::from_string("question -> answer").unwrap();
    let predict = Predict::new(sig);
    let lm = Some(MockLM::new(vec!["[[ ## answer ## ]]\n42"]));
    let inputs = Example::new().field("question", "What is the meaning of life?");
    let result = forward(&predict, &mut Vec::new(), &lm, &None, &inputs).unwrap();
    assert_eq!(result.get_str("answer"), Some("42"));
}

#[test]
fn test_predict_forward_no_markers() {
    let sig = Signature::from_string("question -> answer").unwrap();
    let predict = Predict::new(sig);
    let lm = Some(MockLM::new(vec!["The answer is 42"]));
    let inputs = Example::new().field("question", "What?");
    let result = forward(&predict, &mut Vec::new(), &lm, &None, &inputs).unwrap();
    assert!(result.get_str("answer").unwrap().contains("42"));
}

#[test]
fn test_predict_no_lm_error() {
    let sig = Signature::from_string("q -> a").unwrap();
    let predict = Predict::new(sig);
    let inputs = Example::new().field("q", "test");
    let result = forward(&predict, &mut Vec::new(), &None, &None, &inputs);
    assert!(result.is_err());
}

#[test]
fn test_predict_with_demos() {
    let sig = Signature::from_string("question -> answer").unwrap();
    let mut predict = Predict::new(sig);
    let lm = Some(MockLM::new(vec!["[[ ## answer ## ]]\nParis"]));
    predict.demos.push(
        Example::new().field("question", "Capital of Germany?").field("answer", "Berlin"),
    );
    let inputs = Example::new().field("question", "Capital of France?");
    let result = forward(&predict, &mut Vec::new(), &lm, &None, &inputs).unwrap();
    assert_eq!(result.get_str("answer"), Some("Paris"));
}

#[test]
fn test_predict_train_mode_traces() {
    let sig = Signature::from_string("q -> a").unwrap();
    let mut predict = Predict::new(sig);
    predict.set_train(true);
    let lm = Some(MockLM::new(vec!["[[ ## a ## ]]\ntest"]));
    let inputs = Example::new().field("q", "hello");
    let mut kept = Vec::new();
    let _ = forward(&predict, &mut kept, &lm, &None, &inputs).unwrap();
    let traces = predict.get_traces(&kept);
    assert_eq!(traces.len(), 1);
    assert_eq!(traces[0].inputs.get_str("q"), Some("hello"));
}

#[test]
fn test_predict_via_settings_lm() {
    let settings = Some(MockLM::new(vec!["[[ ## a ## ]]\nfrom_settings"]));
    let sig = Signature::from_string("q -> a").unwrap();
    let predict = Predict::new(sig);
    let inputs = Example::new().field("q", "test");
    let result = forward(&predict, &mut Vec::new(), &None, &settings, &inputs).unwrap();
    assert_eq!(result.get_str("a"), Some("from_settings"));
}

#[test]
fn test_temperature_auto_adjust_n_gt_1_low_temp() {
    let mut config = LMConfig::new("mock");
    config.n = Some(3);
    config.temperature = JsonFloat::parse("0.1");
    assert_eq!(temperature(&call_config(&config)), Some("0.7".to_string()));
}

#[test]
fn test_temperature_no_adjust_n_eq_1() {
    let mut config = LMConfig::new("mock");
    config.n = Some(1);
    config.temperature = JsonFloat::parse("0.1");
    assert_eq!(temperature(&call_config(&config)), Some("0.1".to_string()));
}

#[test]
fn test_temperature_no_adjust_high_temp() {
    let mut config = LMConfig::new("mock");
    config.n = Some(5);
    config.temperature = JsonFloat::parse("0.5");
    assert_eq!(temperature(&call_config(&config)), Some("0.5".to_string()));
}

#[test]
fn test_temperature_adjust_none_temp() {
    let mut config = LMConfig::new("mock");
    config.n = Some(2);
    assert_eq!(temperature(&call_config(&config)), Some("0.7".to_string()));
}

#[test]
fn the_bound_itself_is_low() {
    let mut config = LMConfig::new("mock");
    config.n = Some(2);
    config.temperature = JsonFloat::parse("0.15");
    assert_eq!(temperature(&call_config(&config)), Some("0.7".to_string()));
    config.temperature = JsonFloat::parse("0.16");
    assert_eq!(temperature(&call_config(&config)), Some("0.16".to_string()));
}

#[test]
fn what_a_predictor_has_itself_goes_first() {
    assert_eq!(*effective_lm(&Some(1), &Some(2)).unwrap(), 1);
    assert_eq!(*effective_lm(&None, &Some(2)).unwrap(), 2);
    assert_eq!(effective_adapter(&Some(1), &Some(2)), Some(&1));
    assert_eq!(effective_adapter::<i32>(&None, &None), None);
}

#[test]
fn a_bad_signature_leaves_the_predictor_as_it_was() {
    let mut predict = Predict::new(Signature::from_string("q -> a").unwrap());
    let state = dspy_core::json::Json::parse(r#"{"signature": {}}"#).unwrap();
    assert!(predict.load_state(&state).is_err());
    assert_eq!(predict.signature.to_shorthand(), "q -> a");
}

#[test]
fn a_copy_records_into_the_same_list() {
    let mut predict = Predict::new(Signature::from_string("q -> a").unwrap());
    predict.set_train(true);
    let copy = predict.deep_copy();
    let mut kept = Vec::new();
    let lm = Some(MockLM::new(vec!["[[ ## a ## ]]\ntest"]));
    let first = Example::new().field("q", "first");
    let second = Example::new().field("q", "second");
    forward(&predict, &mut kept, &lm, &None, &first).unwrap();
    forward(&copy, &mut kept, &lm, &None, &second).unwrap();
    let traces = predict.get_traces(&kept);
    assert_eq!(traces.len(), 2);
    assert_eq!(traces[0].inputs.get_str("q"), Some("first"));
    assert_eq!(traces[1].inputs.get_str("q"), Some("second"));
    assert_eq!(traces[1].outputs.get_str("a"), Some("test"));
    assert_eq!(traces[1].predictor_name, "");
    copy.clear_traces(&mut kept);
    assert!(predict.get_traces(&kept).is_empty());
}

#[test]
fn no_trace_is_left_out_of_training() {
    let predict = Predict::new(Signature::from_string("q -> a").unwrap());
    assert!(!predict.is_train());
    let mut kept = Vec::new();
    let (_, trace) = predict.finish(&Example::new().field("q", "x"), Vec::new(), &mut kept);
    assert!(trace.is_none());
    assert!(kept.is_empty());
}
