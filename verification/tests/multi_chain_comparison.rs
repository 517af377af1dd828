use dspy_core::example::Example;
use dspy_core::multi_chain_comparison::MultiChainComparison;
use dspy_core::signature::Signature;

#[test]
fn test_mcc_signature_structure() {
    let sig = Signature::from_string("question -> answer").unwrap();
    let mcc = MultiChainComparison::new(sig, Some(3));
    let fields: Vec<&String> = mcc.predict().signature.fields().keys().collect();
    assert_eq!(fields.len(), 6);
    assert_eq!(fields[0], "question");
    assert!(fields[1].starts_with("reasoning_attempt_"));
    assert!(fields[2].starts_with("reasoning_attempt_"));
    assert!(fields[3].starts_with("reasoning_attempt_"));
    assert_eq!(fields[4], "rationale");
    assert_eq!(fields[5], "answer");
}

#[test]
fn test_mcc_custom_m() {
    let sig = Signature::from_string("q -> a").unwrap();
    let mcc = MultiChainComparison::new(sig, Some(5));
    let input_count = mcc.predict().signature.input_fields().len();
    assert_eq!(input_count, 6);
}

#[test]
fn test_mcc_output_fields() {
    let sig = Signature::from_string("q -> a").unwrap();
    let mcc = MultiChainComparison::new(sig, Some(3));
    let output_keys: Vec<String> = mcc
        .predict()
        .signature
        .output_fields()
        .iter()
        .map(|(name, _)| name.to_string())
        .collect();
    assert_eq!(output_keys, vec!["rationale", "a"]);
}

#[test]
fn attempts_are_shown_in_order() {
    let sig = Signature::from_string("q -> reasoning, a").unwrap();
    let mcc = MultiChainComparison::new(sig, Some(2));
    let attempts = vec![
        Example::new().field("reasoning", " one and one").field("a", "2"),
        Example::new().field("reasoning", "twice one").field("a", "two"),
    ];
    let inputs = mcc.comparison_inputs(&attempts, &Example::new().field("q", "1+1?"));
    assert_eq!(inputs.get_str("q"), Some("1+1?"));
    assert!(inputs.get_str("reasoning_attempt_1").unwrap().contains("one and one"));
    assert!(inputs.get_str("reasoning_attempt_2").unwrap().contains("twice one"));
    assert!(inputs.get_str("reasoning_attempt_2").unwrap().contains("two"));
}

#[test]
fn a_comparison_needs_attempts() {
    let mcc = MultiChainComparison::new(Signature::from_string("q -> a").unwrap(), None);
    assert_eq!(mcc.m, 3);
    let error = mcc.forward_without_completions().unwrap_err();
    assert_eq!(error.message(), "Use forward_with_completions for MultiChainComparison");
}

#[test]
fn comparisons_name_their_predictor() {
    let mcc = MultiChainComparison::new(Signature::from_string("q -> a").unwrap(), None);
    let copied = mcc.deep_copy();
    assert_eq!(copied.named_predictors()[0].0, "predict");
    assert_eq!(copied.m, 3);
    assert_eq!(copied.last_key, "a");
}
