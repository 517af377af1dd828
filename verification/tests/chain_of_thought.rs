use dspy_core::chain_of_thought::ChainOfThought;
use dspy_core::signature::Signature;

#[test]
fn test_cot_prepends_reasoning() {
    let sig = Signature::from_string("question -> answer").unwrap();
    let cot = ChainOfThought::new(&sig);

    let fields: Vec<&String> = cot.predict().signature.fields().keys().collect();
    assert_eq!(fields.len(), 3);
    assert_eq!(fields[0], "question");
    assert_eq!(fields[1], "reasoning");
    assert_eq!(fields[2], "answer");
}

#[test]
fn test_cot_reasoning_is_output() {
    let sig = Signature::from_string("q -> a").unwrap();
    let cot = ChainOfThought::new(&sig);
    assert_eq!(cot.predict().signature.output_fields().len(), 2);
    assert_eq!(cot.predict().signature.input_fields().len(), 1);
}

#[test]
fn test_cot_named_predictors() {
    let sig = Signature::from_string("q -> a").unwrap();
    let cot = ChainOfThought::new(&sig);
    let preds = cot.named_predictors();
    assert_eq!(preds.len(), 1);
    assert_eq!(preds[0].0, "predict");
}

#[test]
fn test_cot_deep_copy() {
    let sig = Signature::from_string("q -> a").unwrap();
    let cot = ChainOfThought::new(&sig);
    let copied = cot.deep_copy();
    let preds = copied.named_predictors();
    assert_eq!(preds.len(), 1);
}
