use dspy_core::adapter::ChatAdapter;
use dspy_core::code_act::{CodeAct, CodeActStep};
use dspy_core::example::Example;
use dspy_core::mock_interpreter::{MockInterpreter, MockResponse};
use dspy_core::prediction::Prediction;
use dspy_core::signature::Signature;
use dspy_core::strmap::StrMap;
use dspy_core::tool::Tool;

/// A model that gives its replies one after the other.
struct MockLM {
    responses: Vec<String>,
    next: usize,
}

impl MockLM {
    fn new(responses: Vec<&str>) -> Self {
        Self { responses: responses.iter().map(|s| s.to_string()).collect(), next: 0 }
    }

    fn ask(&mut self, signature: &Signature, inputs: &Example) -> Prediction {
        let adapter = ChatAdapter::new();
        let messages = adapter.format_messages(signature, inputs, &Vec::new(), &Vec::new());
        assert!(!messages.is_empty());
        let reply = &self.responses[self.next % self.responses.len()];
        self.next += 1;
        let fields = adapter.parse_reply(reply, None, signature).unwrap();
        Prediction::from_completions(vec![fields], Some(signature))
    }
}

fn forward(
    act: &CodeAct,
    lm: &mut MockLM,
    interpreter: &mut MockInterpreter,
    args: &Example,
) -> Prediction {
    let mut run = act.begin(args);
    loop {
        match act.next(&run).unwrap() {
            CodeActStep::Act(inputs) => {
                let code_data = lm.ask(&act.code_act_predict.signature, &inputs);
                if act.on_code(&mut run, &code_data).is_some() {
                    let outcome = interpreter.execute();
                    act.on_result(&mut run, outcome);
                }
            }
            CodeActStep::Extract(inputs) => {
                let found = lm.ask(&act.extractor.predict().signature, &inputs);
                return act.finish(&run, &found);
            }
        }
    }
}

#[test]
fn code_act_test_constructor() {
    let tool = Tool::new("factorial", "Compute factorial", StrMap::new());
    let codeact =
        CodeAct::new(Signature::from_string("n -> factorial_result").unwrap(), vec![tool], None);
    assert_eq!(codeact.max_iters, 5);
}

#[test]
fn test_forward_runs_and_extracts() {
    let mut interpreter = MockInterpreter::new(vec![MockResponse::output("120")]);
    let mut lm = MockLM::new(vec![
        "[[ ## generated_code ## ]]\n```python\nresult = factorial(5)\nprint(result)\n```\n\n[[ ## finished ## ]]\ntrue\n\n[[ ## completed ## ]]",
        "[[ ## reasoning ## ]]\nFactorial of 5 is 120\n\n[[ ## factorial_result ## ]]\n120\n\n[[ ## completed ## ]]",
    ]);
    let tool = Tool::new("factorial", "Compute factorial", StrMap::new());
    let codeact = CodeAct::new(
        Signature::from_string("n -> factorial_result").unwrap(),
        vec![tool],
        Some(3),
    );
    let args = Example::new().field("n", "5");
    let result = forward(&codeact, &mut lm, &mut interpreter, &args);
    assert!(result.get_str("factorial_result").is_some());
}

#[test]
fn test_forward_iterates_on_errors() {
    let mut interpreter = MockInterpreter::new(vec![
        MockResponse::error("NameError"),
        MockResponse::output("42"),
    ]);
    let mut lm = MockLM::new(vec![
        "[[ ## generated_code ## ]]\nbad_code()\n\n[[ ## finished ## ]]\nfalse\n\n[[ ## completed ## ]]",
        "[[ ## generated_code ## ]]\nprint(42)\n\n[[ ## finished ## ]]\ntrue\n\n[[ ## completed ## ]]",
        "[[ ## reasoning ## ]]\nGot 42\n\n[[ ## answer ## ]]\n42\n\n[[ ## completed ## ]]",
    ]);
    let codeact =
        CodeAct::new(Signature::from_string("question -> answer").unwrap(), vec![], Some(5));
    let args = Example::new().field("question", "what is 42?");
    let result = forward(&codeact, &mut lm, &mut interpreter, &args);
    assert!(result.get("trajectory").is_some());
    assert_eq!(lm.next, 3);
}

#[test]
fn test_forward_respects_max_iters() {
    let mut interpreter =
        MockInterpreter::new(vec![MockResponse::output("a"), MockResponse::output("b")]);
    let mut lm = MockLM::new(vec![
        "[[ ## generated_code ## ]]\nprint('a')\n\n[[ ## finished ## ]]\nfalse\n\n[[ ## completed ## ]]",
        "[[ ## generated_code ## ]]\nprint('b')\n\n[[ ## finished ## ]]\nfalse\n\n[[ ## completed ## ]]",
        "[[ ## reasoning ## ]]\npartial\n\n[[ ## answer ## ]]\npartial\n\n[[ ## completed ## ]]",
    ]);
    let codeact =
        CodeAct::new(Signature::from_string("question -> answer").unwrap(), vec![], Some(2));
    let args = Example::new().field("question", "test");
    let result = forward(&codeact, &mut lm, &mut interpreter, &args);
    assert!(result.get_str("answer").is_some());
    assert_eq!(lm.next, 3);
}

#[test]
fn a_copy_has_no_tools() {
    let tool = Tool::new("t", "d", StrMap::new());
    let codeact = CodeAct::new(Signature::from_string("q -> a").unwrap(), vec![tool], None);
    let copied = codeact.deep_copy();
    assert!(copied.tools.is_empty());
    assert_eq!(copied.named_predictors()[0].0, "code_act_predict");
    assert_eq!(copied.named_predictors()[1].0, "extractor");
}
