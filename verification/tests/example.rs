use dspy_core::example::Example;
use dspy_core::json::Json;
use dspy_core::strmap::StrMap;
use dspy_core::value::Value;

#[test]
fn test_new_and_field_builder() {
    let ex = Example::new()
        .field("question", "What is 2+2?")
        .field("answer", "4");
    assert_eq!(ex.get_str("question"), Some("What is 2+2?"));
    assert_eq!(ex.get_str("answer"), Some("4"));
    assert_eq!(ex.len(), 2);
}

#[test]
fn test_set_and_get() {
    let mut ex = Example::new();
    ex.set("name", "Alice");
    assert!(ex.has("name"));
    assert!(!ex.has("age"));
    assert_eq!(ex.at("name").as_str(), Some("Alice"));
}

#[test]
fn test_with_inputs_and_labels() {
    let ex = Example::new()
        .field("question", "What?")
        .field("context", "Some context")
        .field("answer", "42")
        .with_inputs(&["question", "context"]);

    let inputs = ex.inputs();
    assert_eq!(inputs.len(), 2);
    assert!(inputs.has("question"));
    assert!(inputs.has("context"));
    assert!(!inputs.has("answer"));

    let labels = ex.labels();
    assert_eq!(labels.len(), 1);
    assert!(labels.has("answer"));
}

#[test]
fn test_inputs_without_input_keys_returns_clone() {
    let ex = Example::new().field("a", "1").field("b", "2");
    let inputs = ex.inputs();
    assert_eq!(inputs.len(), 2);
}

#[test]
fn test_labels_without_input_keys_returns_empty() {
    let ex = Example::new().field("a", "1");
    let labels = ex.labels();
    assert_eq!(labels.len(), 0);
}

#[test]
fn test_remove() {
    let mut ex = Example::new().field("a", "1").field("b", "2");
    let removed = ex.remove("a");
    assert!(removed.is_some());
    assert!(!ex.has("a"));
    assert_eq!(ex.len(), 1);
}

#[test]
fn test_demos() {
    let mut ex = Example::new().field("q", "test");
    let demo = Example::new().field("q", "demo").field("a", "ans");
    ex.demos_mut().push(demo);
    assert_eq!(ex.demos().len(), 1);
    assert_eq!(ex.demos()[0].get_str("q"), Some("demo"));
}

#[test]
fn test_from_map() {
    let mut map = StrMap::new();
    map.insert("key".to_string(), Value::String("val".to_string()));
    let ex = Example::from_map(map);
    assert_eq!(ex.get_str("key"), Some("val"));
}

#[test]
fn test_clone_preserves_input_keys() {
    let ex = Example::new()
        .field("q", "test")
        .field("a", "ans")
        .with_inputs(&["q"]);
    let cloned = ex.clone();
    assert_eq!(cloned.inputs().len(), 1);
    assert!(cloned.inputs().has("q"));
}

#[test]
fn test_serde_roundtrip() {
    let ex = Example::new()
        .field("question", "What?")
        .field("count", Value::Integer(42));
    let json = ex.to_json().to_text();
    let ex2 = Example::from_json(&Json::parse(&json).unwrap()).unwrap();
    assert_eq!(ex2.get_str("question"), Some("What?"));
    assert_eq!(ex2.get("count").and_then(|v| v.as_i64()), Some(42));
    assert!(ex2.demos().is_empty());
}

#[test]
fn an_example_keeps_the_order_of_its_fields() {
    let ex = Example::new().field("b", "1").field("a", "2").field("b", "3");
    assert_eq!(ex.keys(), vec!["b", "a"]);
    assert_eq!(ex.get_str("b"), Some("3"));
}

#[test]
fn what_is_no_example_is_not_read() {
    assert!(Example::from_json(&Json::parse("3").unwrap()).is_none());
    assert!(Example::from_json(&Json::parse(r#"{"store": 1}"#).unwrap()).is_none());
}

#[test]
fn input_keys_are_a_set() {
    let ex = Example::new().field("a", "1").with_inputs(&["a", "a", "b"]);
    assert_eq!(ex.input_keys().unwrap(), &vec!["a".to_string(), "b".to_string()]);
    let text = r#"{"store": {}, "input_keys": ["x", "y", "x"]}"#;
    let read = Example::from_json(&Json::parse(text).unwrap()).unwrap();
    assert_eq!(read.input_keys().unwrap().len(), 2);
    assert!(Example::new().input_keys().is_none());
}
