use dspy_core::signature::{input_field, output_field, FieldUpdate, Signature};

#[test]
fn test_from_string_basic() {
    let sig = Signature::from_string("question -> answer").unwrap();
    assert_eq!(sig.input_fields().len(), 1);
    assert_eq!(sig.output_fields().len(), 1);
    assert_eq!(sig.fields().get_index(0).unwrap().0, "question");
    assert_eq!(sig.fields().get_index(1).unwrap().0, "answer");
}

#[test]
fn test_from_string_multiple_fields() {
    let sig = Signature::from_string("question, context -> answer, confidence").unwrap();
    assert_eq!(sig.input_fields().len(), 2);
    assert_eq!(sig.output_fields().len(), 2);
}

#[test]
fn test_from_string_with_descriptions() {
    let sig =
        Signature::from_string("question: the question to answer -> answer: the final answer")
            .unwrap();
    let q = sig.fields().get("question").unwrap();
    assert_eq!(q.description.as_deref(), Some("the question to answer"));
    let a = sig.fields().get("answer").unwrap();
    assert_eq!(a.description.as_deref(), Some("the final answer"));
}

#[test]
fn test_from_string_error() {
    let result = Signature::from_string("no arrow here");
    assert!(result.is_err());
}

#[test]
fn test_builder() {
    let sig = Signature::define()
        .instructions("Answer questions")
        .input("question")
        .output_with_desc("answer", "The answer")
        .build();
    assert_eq!(sig.instructions(), "Answer questions");
    assert_eq!(sig.input_fields().len(), 1);
    assert_eq!(sig.output_fields().len(), 1);
    let a = sig.fields().get("answer").unwrap();
    assert_eq!(a.description.as_deref(), Some("The answer"));
}

#[test]
fn test_with_instructions() {
    let sig = Signature::from_string("q -> a").unwrap();
    assert_eq!(sig.instructions(), "");
    let sig2 = sig.with_instructions("Do something");
    assert_eq!(sig2.instructions(), "Do something");
    assert_eq!(sig.instructions(), "");
}

#[test]
fn test_prepend_output() {
    let sig = Signature::from_string("question -> answer").unwrap();
    let sig2 = sig.prepend(output_field("reasoning").with_desc("Step by step reasoning"));
    let fields: Vec<&String> = sig2.fields().keys().collect();
    assert_eq!(fields, vec!["question", "reasoning", "answer"]);
    assert_eq!(sig2.output_fields().len(), 2);
}

#[test]
fn test_prepend_input() {
    let sig = Signature::from_string("question -> answer").unwrap();
    let sig2 = sig.prepend(input_field("context"));
    let fields: Vec<&String> = sig2.fields().keys().collect();
    assert_eq!(fields, vec!["context", "question", "answer"]);
}

#[test]
fn test_append() {
    let sig = Signature::from_string("q -> a").unwrap();
    let sig2 = sig.append(output_field("confidence"));
    assert_eq!(sig2.fields().len(), 3);
    assert_eq!(sig2.fields().get_index(2).unwrap().0, "confidence");
}

#[test]
fn test_delete_field() {
    let sig = Signature::from_string("q, context -> a").unwrap();
    let sig2 = sig.delete_field("context");
    assert_eq!(sig2.fields().len(), 2);
    assert!(!sig2.fields().contains_key("context"));
}

#[test]
fn test_insert_at_index() {
    let sig = Signature::from_string("q -> a").unwrap();
    let sig2 = sig.insert(1, output_field("reasoning"));
    let fields: Vec<&String> = sig2.fields().keys().collect();
    assert_eq!(fields, vec!["q", "reasoning", "a"]);
}

#[test]
fn test_with_updated_field() {
    let sig = Signature::from_string("q -> a").unwrap();
    let sig2 = sig.with_updated_field(
        "a",
        FieldUpdate {
            description: Some("The answer".into()),
            ..Default::default()
        },
    );
    assert_eq!(
        sig2.fields().get("a").unwrap().description.as_deref(),
        Some("The answer")
    );
}

#[test]
fn signature_test_dump_load_state() {
    let sig = Signature::define()
        .instructions("Test")
        .input_with_desc("q", "question")
        .output("a")
        .build();
    let state = sig.dump_state();
    let sig2 = Signature::load_state(&state).unwrap();
    assert_eq!(sig2.instructions(), "Test");
    assert_eq!(sig2.fields().len(), 2);
    assert_eq!(
        sig2.fields().get("q").unwrap().description.as_deref(),
        Some("question")
    );
}

#[test]
fn test_to_shorthand() {
    let sig = Signature::from_string("question, context -> answer").unwrap();
    let sh = sig.to_shorthand();
    assert!(sh.contains("question"));
    assert!(sh.contains("context"));
    assert!(sh.contains("answer"));
    assert!(sh.contains("->"));
}

#[test]
fn test_clone_preserves_order() {
    let sig = Signature::from_string("a, b, c -> x, y").unwrap();
    let cloned = sig.clone();
    let orig_keys: Vec<&String> = sig.fields().keys().collect();
    let clone_keys: Vec<&String> = cloned.fields().keys().collect();
    assert_eq!(orig_keys, clone_keys);
}

#[test]
fn an_error_says_what_is_wrong() {
    assert_eq!(
        Signature::from_string("no arrow here").unwrap_err().message(),
        "Invalid signature format: Expected 'inputs -> outputs', got: no arrow here"
    );
    assert_eq!(
        Signature::from_string(" , -> ").unwrap_err().message(),
        "Invalid signature format: Signature must have at least one field"
    );
}

#[test]
fn shorthand_is_read_back() {
    let sig = Signature::from_string("a , b: first letters->x:last letter").unwrap();
    assert_eq!(sig.to_shorthand(), "a, b -> x");
    let again = Signature::from_string(&sig.to_shorthand()).unwrap();
    assert_eq!(again.input_names(), vec!["a", "b"]);
    assert_eq!(again.output_names(), vec!["x"]);
    assert!(again.get_field("b").unwrap().description.is_none());
}

#[test]
fn an_index_past_the_end_appends() {
    let sig = Signature::from_string("q -> a").unwrap().insert(9, output_field("b"));
    assert_eq!(sig.field_at(2).name, "b");
    assert_eq!(sig.len(), 3);
}

#[test]
fn shorthand_converts() {
    let sig = Signature::try_from("a -> b").unwrap();
    assert_eq!(sig.to_shorthand(), "a -> b");
    assert!(Signature::try_from("a").is_err());
}
