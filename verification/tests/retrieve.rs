use dspy_core::error::DspyError;
use dspy_core::json::Json;
use dspy_core::retrieve::{
    get_global_retriever, set_global_retriever, GlobalRetriever, Retrieve,
};
use dspy_core::error::Result;
use dspy_core::prediction::Prediction;
use dspy_core::value::Value;

#[derive(Debug)]
struct MockRetriever {
    passages: Vec<String>,
}

fn forward(
    retrieve: &Retrieve,
    global: &GlobalRetriever<MockRetriever>,
    k: Option<usize>,
) -> Result<Prediction> {
    let count = retrieve.count(k);
    let rm = retrieve.retriever(global)?;
    let found: Vec<String> = rm.passages.iter().take(count).cloned().collect();
    Ok(retrieve.prediction(found))
}

fn j(text: &str) -> Json {
    Json::parse(text).unwrap()
}

#[test]
fn test_retrieve_no_rm_returns_error_message() {
    let err_msg = "No retrieval module is configured. Set one via set_global_retriever().";
    let err = DspyError::Other(err_msg.to_string());
    assert!(err.message().contains("No retrieval module"));
}

#[test]
fn test_retrieve_dump_load_state() {
    let mut retrieve = Retrieve::new(5);
    let state = retrieve.dump_state();
    assert_eq!(state.get("k").unwrap().as_i64(), Some(5));

    let new_state = j(r#"{"k": 10}"#);
    retrieve.load_state(&new_state);
    assert_eq!(retrieve.k, 10);
}

#[test]
fn test_retrieve_basic() {
    let mock = MockRetriever {
        passages: vec![
            "First passage".to_string(),
            "Second passage".to_string(),
            "Third passage".to_string(),
        ],
    };
    let mut global = GlobalRetriever::new();
    set_global_retriever(&mut global, Some(mock));
    let retrieve = Retrieve::new(2);
    let result = forward(&retrieve, &global, None).unwrap();
    let passages = result.get("passages").unwrap();
    if let Value::List(list) = passages {
        assert_eq!(list.len(), 2);
        assert_eq!(list[0].as_str().unwrap(), "First passage");
        assert_eq!(list[1].as_str().unwrap(), "Second passage");
    } else {
        panic!("Expected list");
    }
}

#[test]
fn test_retrieve_override_k() {
    let mock =
        MockRetriever { passages: vec!["A".to_string(), "B".to_string(), "C".to_string()] };
    let mut global = GlobalRetriever::new();
    set_global_retriever(&mut global, Some(mock));
    let retrieve = Retrieve::new(2);
    let result = forward(&retrieve, &global, Some(1)).unwrap();
    if let Value::List(list) = result.get("passages").unwrap() {
        assert_eq!(list.len(), 1);
    } else {
        panic!("Expected list");
    }
}

#[test]
fn a_search_needs_a_retriever() {
    let global: GlobalRetriever<MockRetriever> = GlobalRetriever::new();
    assert!(get_global_retriever(&global).is_none());
    let error = forward(&Retrieve::new(2), &global, None).unwrap_err();
    assert_eq!(
        error.message(),
        "No retrieval module is configured. Set one via set_global_retriever()."
    );
}

#[test]
fn a_search_says_what_it_is() {
    let mut retrieve = Retrieve::new(3);
    assert_eq!(retrieve.name, "Search");
    assert_eq!(retrieve.input_variable, "query");
    assert_eq!(retrieve.stage.len(), 16);
    assert!(retrieve.stage.chars().all(|c| "0123456789abcdef".contains(c)));
    assert_eq!(retrieve.query_inputs("q", 3).to_text(), r#"{"k":3,"query":"q"}"#);
    retrieve.reset();
    assert_eq!(retrieve.k, 3);
}
