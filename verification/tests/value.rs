use dspy_core::json::{Json, JsonFloat};
use dspy_core::value::{ToValue, Value};

#[test]
fn test_value_from_str() {
    let v: Value = "hello".to_value();
    assert_eq!(v.as_str(), Some("hello"));
}

#[test]
fn test_value_display() {
    assert_eq!(Value::String("hello".into()).to_text(), "hello");
    assert_eq!(Value::Integer(42).to_text(), "42");
    assert_eq!(Value::Bool(true).to_text(), "true");
}

#[test]
fn test_value_serde_roundtrip() {
    let v = Value::String("test".into());
    let json = v.to_json().to_text();
    let v2 = Value::from_json(&Json::parse(&json).unwrap());
    assert_eq!(v.as_str(), v2.as_str());
    assert_eq!(v2.as_str(), Some("test"));
}

#[test]
fn plain_values_are_read_back() {
    let v = Value::List(vec![
        Value::Null,
        Value::Integer(-3),
        Value::Bool(true),
        Value::Float(JsonFloat::parse("2.5").unwrap()),
        Value::String("x".to_string()),
    ]);
    let json = v.to_json().to_text();
    assert_eq!(json, r#"[null,-3,true,2.5,"x"]"#);
    let back = Value::from_json(&Json::parse(&json).unwrap());
    assert_eq!(back.to_json().to_text(), json);
}

#[test]
fn numbers_show_as_a_reader_writes_them() {
    assert_eq!(Value::Float(JsonFloat::parse("2.0").unwrap()).to_text(), "2");
    assert_eq!(Value::Null.to_text(), "null");
    assert!(JsonFloat::parse("2").is_none());
    assert!(JsonFloat::parse("x").is_none());
}
