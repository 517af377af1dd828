use dspy_core::adapter::ChatAdapter;
use dspy_core::error::{DspyError, Result};
use dspy_core::example::Example;
use dspy_core::json::Json;
use dspy_core::prediction::Prediction;
use dspy_core::react::{format_trajectory, ReAct, ReActOptions, ReactStep, ToolStep};
use dspy_core::signature::Signature;
use dspy_core::strmap::StrMap;
use dspy_core::tool::{Tool, ToolArg};

/// A model that gives its replies one after the other.
struct MockLM {
    responses: Vec<String>,
    next: usize,
}

impl MockLM {
    fn new(responses: Vec<&str>) -> Self {
        Self { responses: responses.iter().map(|s| s.to_string()).collect(), next: 0 }
    }

    fn ask(&mut self, signature: &Signature, inputs: &Example) -> Prediction {
        let adapter = ChatAdapter::new();
        let messages = adapter.format_messages(signature, inputs, &Vec::new(), &Vec::new());
        assert!(!messages.is_empty());
        let reply = &self.responses[self.next % self.responses.len()];
        self.next += 1;
        let fields = adapter.parse_reply(reply, None, signature).unwrap();
        Prediction::from_completions(vec![fields], Some(signature))
    }
}

fn text_arg(description: Option<&str>) -> ToolArg {
    ToolArg {
        arg_type: "string".to_string(),
        description: description.map(|d| d.to_string()),
        default: None,
    }
}

fn forward(
    react: &ReAct,
    lm: &mut MockLM,
    tool: fn(&StrMap<Json>) -> Result<Json>,
    args: &Example,
) -> Prediction {
    let mut run = react.begin(args);
    loop {
        match react.next(&run) {
            ReactStep::Think(inputs) => {
                let thought = lm.ask(&react.react_predict().signature, &inputs);
                if let ToolStep::Invoke(kwargs) = react.on_prediction(&mut run, &thought) {
                    react.on_tool_result(&mut run, tool(&kwargs));
                }
            }
            ReactStep::Extract(inputs) => {
                let found = lm.ask(&react.extract_predict().predict().signature, &inputs);
                return react.finish(&run, &found);
            }
        }
    }
}

#[test]
fn test_truncate_trajectory_removes_oldest() {
    let react = ReAct::from_string("q -> a", vec![], None).unwrap();

    let mut trajectory = StrMap::new();
    trajectory.insert("thought_0".to_string(), "first".to_string());
    trajectory.insert("tool_name_0".to_string(), "search".to_string());
    trajectory.insert("tool_args_0".to_string(), "{}".to_string());
    trajectory.insert("observation_0".to_string(), "result1".to_string());
    trajectory.insert("thought_1".to_string(), "second".to_string());
    trajectory.insert("tool_name_1".to_string(), "finish".to_string());
    trajectory.insert("tool_args_1".to_string(), "{}".to_string());
    trajectory.insert("observation_1".to_string(), "done".to_string());

    let truncated = react.truncate_trajectory(&trajectory).unwrap();
    assert_eq!(truncated.len(), 4);
    assert!(!truncated.contains_key("thought_0"));
    assert!(truncated.contains_key("thought_1"));
}

#[test]
fn test_truncate_trajectory_throws_on_single_entry() {
    let react = ReAct::from_string("q -> a", vec![], None).unwrap();

    let mut trajectory = StrMap::new();
    trajectory.insert("thought_0".to_string(), "only".to_string());
    trajectory.insert("tool_name_0".to_string(), "finish".to_string());
    trajectory.insert("tool_args_0".to_string(), "{}".to_string());

    let result = react.truncate_trajectory(&trajectory);
    assert!(result.is_err());
}

#[test]
fn test_creates_react_module_with_tools() {
    let mut search_args = StrMap::new();
    search_args.insert("query".to_string(), text_arg(Some("Search query")));
    let search_tool = Tool::new("search", "Search the web", search_args);
    let react = ReAct::from_string("question -> answer", vec![search_tool], None).unwrap();
    assert!(!react.tools.is_empty());
    assert!(react.tools.contains_key("finish"));
    assert!(react.tools.contains_key("search"));
}

#[test]
fn test_runs_tool_loop_and_extracts_answer() {
    let mut search_args = StrMap::new();
    search_args.insert("query".to_string(), text_arg(None));
    let search_tool = Tool::new("search", "Search for information", search_args);
    let react = ReAct::from_string(
        "question -> answer",
        vec![search_tool],
        Some(ReActOptions { max_iters: 5 }),
    )
    .unwrap();
    let mut lm = MockLM::new(vec![
        "[[ ## next_thought ## ]]\nI need to search for the capital of France.\n\n[[ ## next_tool_name ## ]]\nsearch\n\n[[ ## next_tool_args ## ]]\n{\"query\": \"capital of France\"}\n\n[[ ## completed ## ]]",
        "[[ ## next_thought ## ]]\nI found the answer from the search results.\n\n[[ ## next_tool_name ## ]]\nfinish\n\n[[ ## next_tool_args ## ]]\n{}\n\n[[ ## completed ## ]]",
        "[[ ## reasoning ## ]]\nBased on the search results, Paris is the capital of France.\n\n[[ ## answer ## ]]\nParis\n\n[[ ## completed ## ]]",
    ]);
    let inputs = Example::new().field("question", "What is the capital of France?");
    let search = |kwargs: &StrMap<Json>| {
        assert_eq!(kwargs.get("query").unwrap().as_str(), Some("capital of France"));
        Ok(Json::text("Paris is the capital of France"))
    };
    let result = forward(&react, &mut lm, search, &inputs);
    assert_eq!(result.get_str("answer"), Some("Paris"));
    assert!(result.get("trajectory").is_some());
}

#[test]
fn test_handles_tool_execution_errors() {
    let mut fetch_args = StrMap::new();
    fetch_args.insert("url".to_string(), text_arg(None));
    let fail_tool = Tool::new("fetch", "Fetch URL", fetch_args);
    let react = ReAct::from_string(
        "question -> answer",
        vec![fail_tool],
        Some(ReActOptions { max_iters: 2 }),
    )
    .unwrap();
    let mut lm = MockLM::new(vec![
        "[[ ## next_thought ## ]]\nLet me try fetching.\n\n[[ ## next_tool_name ## ]]\nfetch\n\n[[ ## next_tool_args ## ]]\n{\"url\": \"http://example.com\"}\n\n[[ ## completed ## ]]",
        "[[ ## next_thought ## ]]\nTool failed, finishing.\n\n[[ ## next_tool_name ## ]]\nfinish\n\n[[ ## next_tool_args ## ]]\n{}\n\n[[ ## completed ## ]]",
        "[[ ## answer ## ]]\nCould not determine\n\n[[ ## completed ## ]]",
    ]);
    let inputs = Example::new().field("question", "test");
    let fetch = |_: &StrMap<Json>| Err(DspyError::Other("Network error".to_string()));
    let result = forward(&react, &mut lm, fetch, &inputs);
    assert!(result.get_str("answer").is_some());
    let traj_str = result.get_str("trajectory").unwrap();
    assert!(traj_str.contains("Execution error"));
}

#[test]
fn entries_are_shown_by_their_steps() {
    let mut trajectory = StrMap::new();
    trajectory.insert("thought_10".to_string(), "later".to_string());
    trajectory.insert("thought_2".to_string(), "earlier".to_string());
    let text = format_trajectory(&trajectory);
    assert!(text.find("earlier").unwrap() < text.find("later").unwrap());
}

#[test]
fn a_copied_agent_has_no_tools() {
    let react = ReAct::from_string("q -> a", vec![], None).unwrap();
    let copied = react.deep_copy();
    assert!(copied.tools.is_empty());
    assert_eq!(copied.max_iters, 20);
    assert_eq!(copied.named_predictors()[1].0, "extract_predict");
}
