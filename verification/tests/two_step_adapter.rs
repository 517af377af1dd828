use dspy_core::adapter::ChatAdapter;
use dspy_core::example::Example;
use dspy_core::message::Message;
use dspy_core::signature::Signature;
use dspy_core::strmap::StrMap;
use dspy_core::two_step_adapter::TwoStepAdapter;
use dspy_core::value::Value;

/// What the two models were told, and what came of their replies.
struct Passes {
    main: Vec<Message>,
    extraction: Vec<Message>,
    results: Vec<StrMap<Value>>,
}

fn run(main: &str, extract: &str, sig: &Signature, demos: &Vec<Example>, inputs: &Example) -> Passes {
    let adapter = TwoStepAdapter::new();
    let first = adapter.format_first_pass_messages(sig, inputs, demos);
    let chat = ChatAdapter::new();
    let extractor = adapter.create_extractor_signature(sig).unwrap();
    let found = adapter.extraction_inputs(main);
    let second = chat.format_messages(&extractor, &found, &Vec::new(), &Vec::new());
    let parsed = chat.parse_reply(extract, None, &extractor).unwrap();
    let results = adapter.collect_extracted(vec![vec![parsed]]).unwrap();
    Passes { main: first, extraction: second, results }
}

#[test]
fn test_first_pass_natural_language() {
    let sig = Signature::from_string("question -> answer").unwrap();
    let inputs = Example::new().field("question", "What is 2+2?");
    let passes = run(
        "The answer is 4.",
        "[[ ## answer ## ]]\n4\n\n[[ ## completed ## ]]",
        &sig,
        &Vec::new(),
        &inputs,
    );
    let system = &passes.main[0];
    assert!(system.content.contains("helpful assistant"));
    assert!(!system.content.contains("[[ ##"));
    let user = &passes.main[1];
    assert!(user.content.contains("What is 2+2?"));
    assert!(!user.content.contains("[[ ##"));
}

#[test]
fn test_second_pass_extraction() {
    let sig = Signature::from_string("question -> answer").unwrap();
    let inputs = Example::new().field("question", "What is 2+2?");
    let passes = run(
        "The answer is 4.",
        "[[ ## answer ## ]]\n4\n\n[[ ## completed ## ]]",
        &sig,
        &Vec::new(),
        &inputs,
    );
    let system = &passes.extraction[0];
    assert!(system.content.contains("[[ ## text ## ]]"));
    assert!(system.content.contains("[[ ## answer ## ]]"));
    assert_eq!(passes.results.len(), 1);
    assert_eq!(passes.results[0].get("answer").unwrap().as_str(), Some("4"));
}

#[test]
fn test_task_description_includes_fields() {
    let sig = Signature::from_string("question -> answer").unwrap();
    let inputs = Example::new().field("question", "test");
    let passes = run(
        "text",
        "[[ ## answer ## ]]\nresult\n\n[[ ## completed ## ]]",
        &sig,
        &Vec::new(),
        &inputs,
    );
    let system = &passes.main[0];
    assert!(system.content.contains("`question`"));
    assert!(system.content.contains("`answer`"));
    assert!(system.content.contains("outputs must contain"));
}

#[test]
fn test_includes_instructions() {
    let sig = Signature::from_string("question -> answer")
        .unwrap()
        .with_instructions("Answer in one word.");
    let inputs = Example::new().field("question", "What is 2+2?");
    let passes = run(
        "Four",
        "[[ ## answer ## ]]\nFour\n\n[[ ## completed ## ]]",
        &sig,
        &Vec::new(),
        &inputs,
    );
    assert!(passes.main[0].content.contains("Answer in one word."));
}

#[test]
fn test_demos_as_simple_pairs() {
    let sig = Signature::from_string("question -> answer").unwrap();
    let inputs = Example::new().field("question", "What is 2+2?");
    let demo = Example::new().field("question", "What is 1+1?").field("answer", "2");
    let passes = run(
        "Four",
        "[[ ## answer ## ]]\nFour\n\n[[ ## completed ## ]]",
        &sig,
        &vec![demo],
        &inputs,
    );
    let msgs = &passes.main;
    assert_eq!(msgs.len(), 4);
    assert_eq!(msgs[1].role, "user");
    assert!(msgs[1].content.contains("What is 1+1?"));
    assert_eq!(msgs[2].role, "assistant");
    assert!(msgs[2].content.contains("2"));
}

#[test]
fn test_extraction_receives_main_lm_response() {
    let sig = Signature::from_string("question -> answer").unwrap();
    let inputs = Example::new().field("question", "test");
    let passes = run(
        "The answer is 42.",
        "[[ ## answer ## ]]\n42\n\n[[ ## completed ## ]]",
        &sig,
        &Vec::new(),
        &inputs,
    );
    assert!(passes.extraction[1].content.contains("The answer is 42."));
}

#[test]
fn no_extraction_is_an_error() {
    let adapter = TwoStepAdapter::new();
    assert!(adapter.collect_extracted(Vec::new()).is_err());
}
