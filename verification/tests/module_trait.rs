use dspy_core::module_trait::{check_path, load_text, save_text};
use dspy_core::predict::Predict;
use dspy_core::example::Example;
use dspy_core::signature::Signature;

#[test]
fn a_saved_module_is_loaded_again() {
    let mut predict = Predict::new(Signature::from_string("q -> a").unwrap());
    predict.demos.push(Example::new().field("q", "demo").field("a", "ans"));
    let text = save_text("m.json", &predict.dump_state()).unwrap();
    assert!(text.ends_with("}\n"));
    assert!(text.contains("\"dspy_rs\": \"1.0.0\""));
    let (state, warning) = load_text("m.json", &text).unwrap();
    assert!(warning.is_none());
    let mut again = Predict::new(Signature::from_string("x -> y").unwrap());
    again.load_state(&state).unwrap();
    assert_eq!(again.signature.to_shorthand(), "q -> a");
    assert_eq!(again.demos[0].get_str("a"), Some("ans"));
}

#[test]
fn another_version_is_warned_of() {
    let raw = r#"{"metadata": {"dependency_versions": {"dspy_rs": "0.9.0"}}}"#;
    let (_, warning) = load_text("m.json", raw).unwrap();
    assert_eq!(
        warning.unwrap(),
        "Warning: Version mismatch: saved with dspy_rs==0.9.0, current is dspy_rs==1.0.0"
    );
}

#[test]
fn only_json_files_are_saved_to() {
    assert!(check_path("m.json").is_ok());
    assert_eq!(
        check_path("m.txt").unwrap_err().message(),
        "`path` must end with `.json`, but received: m.txt"
    );
    assert!(load_text("m.txt", "{}").is_err());
    assert!(load_text("m.json", "{").unwrap_err().message().starts_with("Failed to parse JSON: "));
}
