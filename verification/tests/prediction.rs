use dspy_core::example::Example;
use dspy_core::json::JsonFloat;
use dspy_core::prediction::Prediction;
use dspy_core::signature::Signature;
use dspy_core::strmap::StrMap;
use dspy_core::value::Value;

fn score_of(pred: &Prediction) -> Option<&str> {
    pred.score().as_ref().map(|s| s.as_text())
}

fn one(key: &str, value: &str) -> StrMap<Value> {
    let mut m = StrMap::new();
    m.insert(key.to_string(), Value::String(value.to_string()));
    m
}

#[test]
fn test_new_prediction() {
    let mut data = StrMap::new();
    data.insert("answer".to_string(), Value::String("42".to_string()));
    let pred = Prediction::new(data);
    assert_eq!(pred.get_str("answer"), Some("42"));
    assert!(pred.score().is_none());
}

#[test]
fn test_score() {
    let pred_data = StrMap::new();
    let mut pred = Prediction::new(pred_data);
    assert!(pred.score().is_none());
    pred.set_score(JsonFloat::parse("0.95").unwrap());
    assert_eq!(score_of(&pred), Some("0.95"));
}

#[test]
fn test_deref_to_example() {
    let mut data = StrMap::new();
    data.insert("question".to_string(), Value::String("What?".to_string()));
    data.insert("answer".to_string(), Value::String("42".to_string()));
    let pred = Prediction::new(data);
    assert!(pred.has("question"));
    assert_eq!(pred.get_str("answer"), Some("42"));
}

#[test]
fn test_from_completions() {
    let c1 = one("answer", "42");
    let c2 = one("answer", "43");
    let pred = Prediction::from_completions(vec![c1, c2], None);
    assert_eq!(pred.get_str("answer"), Some("42"));
    assert_eq!(pred.completions().get("answer").unwrap().len(), 2);
}

#[test]
fn test_from_completions_empty() {
    let pred = Prediction::from_completions(vec![], None);
    assert!(pred.example.is_empty());
}

#[test]
fn test_from_example() {
    let ex = Example::new().field("q", "test");
    let pred = Prediction::from_example(ex);
    assert_eq!(pred.get_str("q"), Some("test"));
}

#[test]
fn test_clone() {
    let mut data = StrMap::new();
    data.insert("a".to_string(), Value::String("1".to_string()));
    let mut pred = Prediction::new(data);
    pred.set_score(JsonFloat::parse("0.5").unwrap());
    let cloned = pred.clone();
    assert_eq!(score_of(&cloned), Some("0.5"));
    assert_eq!(cloned.get_str("a"), Some("1"));
}

#[test]
fn only_outputs_of_the_signature_are_gathered() {
    let sig = Signature::from_string("question -> answer").unwrap();
    let mut c = one("answer", "42");
    c.insert("extra".to_string(), Value::Null);
    let pred = Prediction::from_completions(vec![c], Some(&sig));
    assert!(pred.completions().contains_key("answer"));
    assert!(!pred.completions().contains_key("extra"));
    assert!(pred.has("extra"));
}

#[test]
fn texts_stand_for_fields() {
    let pred = Prediction::new(one("a", "x"));
    assert_eq!(pred.text("a"), "x");
    assert_eq!(pred.text("b"), "");
}
