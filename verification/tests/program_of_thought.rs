use dspy_core::adapter::ChatAdapter;
use dspy_core::error::Result;
use dspy_core::example::Example;
use dspy_core::mock_interpreter::{MockInterpreter, MockResponse};
use dspy_core::prediction::Prediction;
use dspy_core::program_of_thought::{ProgramOfThought, ProgramStep};
use dspy_core::signature::Signature;

/// A model that gives its replies one after the other.
struct MockLM {
    responses: Vec<String>,
    next: usize,
}

impl MockLM {
    fn new(responses: Vec<&str>) -> Self {
        Self { responses: responses.iter().map(|s| s.to_string()).collect(), next: 0 }
    }

    fn ask(&mut self, signature: &Signature, inputs: &Example) -> Prediction {
        let adapter = ChatAdapter::new();
        let messages = adapter.format_messages(signature, inputs, &Vec::new(), &Vec::new());
        assert!(!messages.is_empty());
        let reply = &self.responses[self.next % self.responses.len()];
        self.next += 1;
        let fields = adapter.parse_reply(reply, None, signature).unwrap();
        Prediction::from_completions(vec![fields], Some(signature))
    }
}

fn forward(
    pot: &ProgramOfThought,
    lm: &mut MockLM,
    interpreter: &mut MockInterpreter,
    args: &Example,
) -> Result<Prediction> {
    let mut run = pot.begin(args);
    let first = lm.ask(&pot.code_generate.predict().signature, &run.input_kwargs);
    let mut step = pot.on_code(&mut run, &first);
    loop {
        step = match step {
            ProgramStep::Execute(code) => {
                assert!(!code.is_empty());
                let outcome = interpreter.execute();
                pot.on_result(&mut run, outcome)
            }
            ProgramStep::Regenerate(inputs) => {
                let again = lm.ask(&pot.code_regenerate.predict().signature, &inputs);
                pot.on_code(&mut run, &again)
            }
            ProgramStep::Answer(inputs) => {
                return Ok(lm.ask(&pot.generate_output.predict().signature, &inputs));
            }
            ProgramStep::Fail(e) => return Err(e),
        };
    }
}

#[test]
fn test_parse_code_from_fence() {
    let pred = Prediction::from_example(
        Example::new().field("generated_code", "```python\nprint(\"hello\")\n```"),
    );
    let (code, error) = ProgramOfThought::parse_code(&pred);
    assert!(error.is_none());
    assert_eq!(code, "print(\"hello\")");
}

#[test]
fn test_parse_code_raw() {
    let pred = Prediction::from_example(
        Example::new().field("generated_code", "result = 1 + 2\nresult"),
    );
    let (code, error) = ProgramOfThought::parse_code(&pred);
    assert!(error.is_none());
    assert!(code.contains("result = 1 + 2"));
}

#[test]
fn test_parse_code_empty() {
    let pred = Prediction::from_example(Example::new().field("generated_code", ""));
    let (_, error) = ProgramOfThought::parse_code(&pred);
    assert!(error.is_some());
}

#[test]
fn test_constructor_from_string() {
    let pot = ProgramOfThought::new(Signature::from_string("question -> answer").unwrap(), None);
    assert_eq!(pot.max_iters, 3);
}

#[test]
fn test_forward_executes_and_extracts() {
    let mut interpreter =
        MockInterpreter::new(vec![MockResponse::output("{\"answer\": \"42\"}")]);
    let mut lm = MockLM::new(vec![
        "[[ ## reasoning ## ]]\nLet me compute this.\n\n[[ ## generated_code ## ]]\n```python\nprint(json.dumps({\"answer\": \"42\"}))\n```\n\n[[ ## completed ## ]]",
        "[[ ## reasoning ## ]]\nThe answer is 42.\n\n[[ ## answer ## ]]\n42\n\n[[ ## completed ## ]]",
    ]);
    let pot = ProgramOfThought::new(Signature::from_string("question -> answer").unwrap(), None);
    let args = Example::new().field("question", "What is 6*7?");
    let result = forward(&pot, &mut lm, &mut interpreter, &args).unwrap();
    assert!(result.get_str("answer").is_some());
}

#[test]
fn test_forward_retries_on_error() {
    let mut interpreter = MockInterpreter::new(vec![
        MockResponse::error("NameError: name 'foo' is not defined"),
        MockResponse::output("42"),
    ]);
    let mut lm = MockLM::new(vec![
        "[[ ## reasoning ## ]]\nTry this\n\n[[ ## generated_code ## ]]\nprint(foo)\n\n[[ ## completed ## ]]",
        "[[ ## reasoning ## ]]\nFixed it\n\n[[ ## generated_code ## ]]\nprint(42)\n\n[[ ## completed ## ]]",
        "[[ ## reasoning ## ]]\nResult is 42\n\n[[ ## answer ## ]]\n42\n\n[[ ## completed ## ]]",
    ]);
    let pot =
        ProgramOfThought::new(Signature::from_string("question -> answer").unwrap(), Some(3));
    let args = Example::new().field("question", "test");
    let result = forward(&pot, &mut lm, &mut interpreter, &args).unwrap();
    assert!(result.get_str("answer").is_some());
}

#[test]
fn test_forward_throws_after_max_iters() {
    let mut interpreter = MockInterpreter::new(vec![
        MockResponse::error("error1"),
        MockResponse::error("error2"),
        MockResponse::error("error3"),
    ]);
    let mut lm = MockLM::new(vec![
        "[[ ## reasoning ## ]]\na\n\n[[ ## generated_code ## ]]\nbad_code()\n\n[[ ## completed ## ]]",
        "[[ ## reasoning ## ]]\nb\n\n[[ ## generated_code ## ]]\nstill_bad()\n\n[[ ## completed ## ]]",
        "[[ ## reasoning ## ]]\nc\n\n[[ ## generated_code ## ]]\nstill_bad()\n\n[[ ## completed ## ]]",
    ]);
    let pot =
        ProgramOfThought::new(Signature::from_string("question -> answer").unwrap(), Some(3));
    let args = Example::new().field("question", "test");
    let result = forward(&pot, &mut lm, &mut interpreter, &args);
    assert!(result.is_err());
    let err_msg = result.unwrap_err().message();
    assert!(err_msg.contains("Max hops reached"));
}

#[test]
fn programs_name_their_predictors() {
    let pot = ProgramOfThought::new(Signature::from_string("question -> answer").unwrap(), None);
    let names: Vec<String> = pot.named_predictors().into_iter().map(|(n, _)| n).collect();
    assert_eq!(
        names,
        vec!["code_generate.predict", "code_regenerate.predict", "generate_output.predict"]
    );
    assert_eq!(pot.deep_copy().max_iters, 3);
}

#[test]
fn code_without_line_breaks_is_taken_apart() {
    let pred = Prediction::from_example(Example::new().field("generated_code", "x = 1"));
    let (code, error) = ProgramOfThought::parse_code(&pred);
    assert!(error.is_none());
    assert!(code.starts_with("x = 1"));
}
