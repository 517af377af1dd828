use dspy_core::adapter::ChatAdapter;
use dspy_core::error::Result;
use dspy_core::example::Example;
use dspy_core::interpreter::FinalOutput;
use dspy_core::json::Json;
use dspy_core::lm::LMResponse;
use dspy_core::mock_interpreter::{MockInterpreter, MockResponse};
use dspy_core::prediction::Prediction;
use dspy_core::rlm::{
    process_final_output, query_answer, query_lm, query_messages, strip_code_fences, QueryBudget,
    RlmStep, RLM,
};
use dspy_core::signature::Signature;
use dspy_core::strmap::StrMap;

fn j(text: &str) -> Json {
    Json::parse(text).unwrap()
}

/// A model that gives its replies one after the other.
struct MockLM {
    responses: Vec<String>,
    next: usize,
}

impl MockLM {
    fn new(responses: Vec<&str>) -> Self {
        Self { responses: responses.iter().map(|s| s.to_string()).collect(), next: 0 }
    }

    fn ask(&mut self, signature: &Signature, inputs: &Example) -> Prediction {
        let adapter = ChatAdapter::new();
        let messages = adapter.format_messages(signature, inputs, &Vec::new(), &Vec::new());
        assert!(!messages.is_empty());
        let reply = &self.responses[self.next % self.responses.len()];
        self.next += 1;
        let fields = adapter.parse_reply(reply, None, signature).unwrap();
        Prediction::from_completions(vec![fields], Some(signature))
    }
}

fn module(spec: &str, max_iterations: Option<usize>) -> RLM {
    RLM::new(Signature::from_string(spec).unwrap(), max_iterations, None, None, false).unwrap()
}

fn forward(
    rlm: &RLM,
    lm: &mut MockLM,
    interpreter: &mut MockInterpreter,
    args: &Example,
) -> Result<Prediction> {
    rlm.validate_inputs(args)?;
    let variables = rlm.try_build_variables(args).unwrap();
    let mut run = rlm.begin(args, variables)?;
    loop {
        assert!(run.history.can_format(5000));
        match rlm.next(&run) {
            RlmStep::Act(inputs) => {
                let action = lm.ask(&rlm.generate_action.signature, &inputs);
                rlm.on_action(&mut run, &action);
                let outcome = interpreter.execute();
                assert!(rlm.can_process(&outcome));
                if let Some(done) = rlm.process_execution_result(&mut run, outcome) {
                    return Ok(done);
                }
            }
            RlmStep::Extract(inputs) => {
                let found = lm.ask(&rlm.extract.signature, &inputs);
                return Ok(rlm.extract_fallback(&run, &found));
            }
        }
    }
}

#[test]
fn rlm_test_constructor() {
    let rlm = module("context, query -> answer", None);
    assert_eq!(rlm.max_iterations, 20);
    assert_eq!(rlm.max_llm_calls, 50);
}

#[test]
fn test_validates_required_inputs() {
    let rlm = module("context, query -> answer", None);
    let result = rlm.validate_inputs(&Example::new().field("context", "test"));
    assert!(result.is_err());
    let err = result.unwrap_err().message();
    assert!(err.contains("Missing required inputs"));
    assert!(err.contains("query"));
}

#[test]
fn test_forward_with_submit() {
    let mut interpreter =
        MockInterpreter::new(vec![MockResponse::final_output(j(r#"{"answer": "42"}"#))]);
    let mut lm = MockLM::new(vec![
        "[[ ## reasoning ## ]]\nLet me compute this.\n\n[[ ## code ## ]]\n```python\nSUBMIT(answer=\"42\")\n```\n\n[[ ## completed ## ]]",
    ]);
    let rlm = module("question -> answer", Some(5));
    let args = Example::new().field("question", "What is 6*7?");
    let result = forward(&rlm, &mut lm, &mut interpreter, &args).unwrap();
    assert_eq!(result.get_str("answer"), Some("42"));
    assert!(result.get("trajectory").is_some());
}

#[test]
fn test_forward_iterates_until_submit() {
    let mut interpreter = MockInterpreter::new(vec![
        MockResponse::output("42\n"),
        MockResponse::final_output(j(r#"{"answer": "42"}"#)),
    ]);
    let mut lm = MockLM::new(vec![
        "[[ ## reasoning ## ]]\nLet me check.\n\n[[ ## code ## ]]\n```python\nprint(question)\n```\n\n[[ ## completed ## ]]",
        "[[ ## reasoning ## ]]\nFound it.\n\n[[ ## code ## ]]\n```python\nSUBMIT(answer=\"42\")\n```\n\n[[ ## completed ## ]]",
    ]);
    let rlm = module("question -> answer", Some(10));
    let args = Example::new().field("question", "What is 6*7?");
    let result = forward(&rlm, &mut lm, &mut interpreter, &args).unwrap();
    assert_eq!(result.get_str("answer"), Some("42"));
    let trajectory = result.get("trajectory").unwrap();
    let trajectory_json = trajectory.to_json();
    assert_eq!(trajectory_json.as_array().unwrap().len(), 2);
}

#[test]
fn test_forward_extract_fallback() {
    let mut interpreter = MockInterpreter::new(vec![
        MockResponse::output("data explored\n"),
        MockResponse::output("more data\n"),
    ]);
    let mut lm = MockLM::new(vec![
        "[[ ## reasoning ## ]]\nExploring\n\n[[ ## code ## ]]\nprint('data explored')\n\n[[ ## completed ## ]]",
        "[[ ## reasoning ## ]]\nMore exploring\n\n[[ ## code ## ]]\nprint('more data')\n\n[[ ## completed ## ]]",
        "[[ ## answer ## ]]\nbest guess 42\n\n[[ ## completed ## ]]",
    ]);
    let rlm = module("question -> answer", Some(2));
    let args = Example::new().field("question", "test");
    let result = forward(&rlm, &mut lm, &mut interpreter, &args).unwrap();
    assert_eq!(result.get_str("final_reasoning"), Some("Extract forced final output"));
}

#[test]
fn test_forward_handles_execution_errors() {
    let mut interpreter = MockInterpreter::new(vec![
        MockResponse::error("NameError: 'undefined_var'"),
        MockResponse::final_output(j(r#"{"answer": "recovered"}"#)),
    ]);
    let mut lm = MockLM::new(vec![
        "[[ ## reasoning ## ]]\nTry this\n\n[[ ## code ## ]]\nprint(undefined_var)\n\n[[ ## completed ## ]]",
        "[[ ## reasoning ## ]]\nFixed it\n\n[[ ## code ## ]]\nSUBMIT(answer=\"recovered\")\n\n[[ ## completed ## ]]",
    ]);
    let rlm = module("question -> answer", Some(5));
    let args = Example::new().field("question", "test");
    let result = forward(&rlm, &mut lm, &mut interpreter, &args).unwrap();
    assert_eq!(result.get_str("answer"), Some("recovered"));
}

#[test]
fn test_forward_rejects_invalid_submit() {
    let mut interpreter = MockInterpreter::new(vec![
        MockResponse::final_output(j(r#""not a dict""#)),
        MockResponse::final_output(j(r#"{"answer": "correct"}"#)),
    ]);
    let mut lm = MockLM::new(vec![
        "[[ ## reasoning ## ]]\nTry\n\n[[ ## code ## ]]\nSUBMIT(\"not a dict\")\n\n[[ ## completed ## ]]",
        "[[ ## reasoning ## ]]\nFix\n\n[[ ## code ## ]]\nSUBMIT(answer=\"correct\")\n\n[[ ## completed ## ]]",
    ]);
    let rlm = module("question -> answer", Some(5));
    let args = Example::new().field("question", "test");
    let result = forward(&rlm, &mut lm, &mut interpreter, &args).unwrap();
    assert_eq!(result.get_str("answer"), Some("correct"));
}

#[test]
fn test_forward_rejects_missing_fields() {
    let mut interpreter = MockInterpreter::new(vec![
        MockResponse::final_output(j(r#"{}"#)),
        MockResponse::final_output(j(r#"{"answer": "got it"}"#)),
    ]);
    let mut lm = MockLM::new(vec![
        "[[ ## reasoning ## ]]\nTry\n\n[[ ## code ## ]]\nSUBMIT()\n\n[[ ## completed ## ]]",
        "[[ ## reasoning ## ]]\nFix\n\n[[ ## code ## ]]\nSUBMIT(answer=\"got it\")\n\n[[ ## completed ## ]]",
    ]);
    let rlm = module("question -> answer", Some(5));
    let args = Example::new().field("question", "test");
    let result = forward(&rlm, &mut lm, &mut interpreter, &args).unwrap();
    assert_eq!(result.get_str("answer"), Some("got it"));
}

#[test]
fn test_strip_code_fences() {
    assert_eq!(strip_code_fences("```python\nprint(1)\n```"), "print(1)");
    assert_eq!(strip_code_fences("print(1)"), "print(1)");
    assert_eq!(strip_code_fences("```py\nx = 1\n```"), "x = 1");
}

#[test]
fn test_process_final_output_valid() {
    let fo = FinalOutput::new(j(r#"{"answer": "42"}"#));
    let (parsed, error) = process_final_output(&fo, &vec!["answer".to_string()]);
    assert!(error.is_none());
    let parsed = parsed.unwrap();
    assert_eq!(parsed.get("answer").unwrap().as_str(), Some("42"));
}

#[test]
fn test_process_final_output_not_dict() {
    let fo = FinalOutput::new(j(r#""not a dict""#));
    let (parsed, error) = process_final_output(&fo, &vec!["answer".to_string()]);
    assert!(parsed.is_none());
    assert!(error.unwrap().contains("expected dict"));
}

#[test]
fn test_process_final_output_missing_fields() {
    let fo = FinalOutput::new(j(r#"{}"#));
    let (parsed, error) = process_final_output(&fo, &vec!["answer".to_string()]);
    assert!(parsed.is_none());
    assert!(error.unwrap().contains("Missing output fields"));
}

#[test]
fn queries_stay_within_the_budget() {
    let mut budget = QueryBudget::new(2);
    let mut kwargs: StrMap<Json> = StrMap::new();
    assert_eq!(budget.query(&kwargs).unwrap_err(), "prompt cannot be empty");
    kwargs.insert("prompt".to_string(), j(r#""why?""#));
    assert_eq!(budget.query(&kwargs).unwrap(), "why?");
    let mut batch: StrMap<Json> = StrMap::new();
    batch.insert("prompts".to_string(), j(r#"["a", "b"]"#));
    assert!(budget.query_batched(&batch).is_err());
    assert_eq!(budget.query(&kwargs).unwrap(), "why?");
    assert!(budget.query(&kwargs).is_err());
}

#[test]
fn queries_go_to_the_model_that_is_there() {
    assert_eq!(*query_lm(&Some(1), &Some(2)).unwrap(), 1);
    assert_eq!(*query_lm(&None, &Some(2)).unwrap(), 2);
    assert!(query_lm::<i32>(&None, &None).is_err());
    let messages = query_messages("why?");
    assert_eq!(messages.len(), 1);
    assert_eq!(messages[0].content, "why?");
    assert_eq!(query_answer(&vec![LMResponse::new("so".to_string(), None)]), "so");
    assert_eq!(query_answer(&vec![]), "");
}

#[test]
fn a_copy_is_the_same_module() {
    let rlm = module("q -> a", Some(4)).deep_copy();
    assert_eq!(rlm.max_iterations, 4);
    assert_eq!(rlm.named_predictors()[0].0, "generate_action");
    assert_eq!(rlm.named_predictors()[1].0, "extract");
}
