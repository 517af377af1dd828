use dspy_core::error::{DspyError, Result};
use dspy_core::prediction::Prediction;
use dspy_core::strmap::StrMap;
use dspy_core::streaming::{
    collect_stream, AdapterType, StatusMessage, StreamListener, StreamResponse, StreamValue,
};

fn nothing() -> Prediction {
    Prediction::from_completions(vec![StrMap::new()], None)
}

fn streamify(
    name: &str,
    result: Result<Prediction>,
    listeners: Vec<StreamListener>,
    start: Option<String>,
    end: Option<String>,
    include_final_prediction: bool,
) -> Vec<StreamValue> {
    collect_stream(name, start, Vec::new(), listeners, result, end, include_final_prediction).0
}

#[test]
fn test_stream_listener_basic() {
    let mut listener = StreamListener::new("answer", None, false);
    assert!(listener
        .receive("[[ ## answer", AdapterType::ChatAdapter)
        .is_none());
    assert!(!listener.stream_start);

    assert!(listener
        .receive(" ## ]]", AdapterType::ChatAdapter)
        .is_none());
    assert!(listener.stream_start);

    let resp = listener.receive("Hello ", AdapterType::ChatAdapter);
    assert!(resp.is_some() || !listener.field_end_queue.is_empty());
}

#[test]
fn test_stream_listener_cache_hit() {
    let mut listener = StreamListener::new("answer", None, false);
    let msg = "[[ ## answer ## ]] Hello world [[ ## completed ## ]]";
    listener.receive(msg, AdapterType::ChatAdapter);

    assert!(listener.cache_hit);
    assert!(listener.stream_end);
}

#[test]
fn test_stream_listener_finalize() {
    let mut listener = StreamListener::new("answer", None, false);
    listener.stream_start = true;
    listener
        .field_end_queue
        .push("buffered content".to_string());

    let result = listener.finalize();
    assert!(result.is_some());
    assert_eq!(result.unwrap().chunk.unwrap(), "buffered content");
    assert!(listener.stream_end);
}

#[test]
fn test_stream_listener_reuse() {
    let mut listener = StreamListener::new("answer", None, true);
    listener.stream_start = true;
    listener.stream_end = true;
    listener.receive("test", AdapterType::ChatAdapter);
    assert!(!listener.stream_end);
}

#[test]
fn test_status_message() {
    let msg = StatusMessage {
        message: "Starting".to_string(),
        module_name: Some("ChainOfThought".to_string()),
    };
    assert_eq!(msg.message, "Starting");
    assert_eq!(msg.module_name.unwrap(), "ChainOfThought");

    let msg2 = StatusMessage {
        message: "Done".to_string(),
        module_name: None,
    };
    assert!(msg2.module_name.is_none());
}

#[test]
fn test_stream_value_variants() {
    let chunk = StreamValue::Chunk(StreamResponse {
        predict_name: None,
        field_name: "answer".to_string(),
        chunk: Some("Hello".to_string()),
        is_last_chunk: false,
    });
    assert!(matches!(chunk, StreamValue::Chunk(_)));

    let status = StreamValue::Status(StatusMessage {
        message: "Running".to_string(),
        module_name: None,
    });
    assert!(matches!(status, StreamValue::Status(_)));

    let pred = nothing();
    let result = StreamValue::Result(pred);
    assert!(matches!(result, StreamValue::Result(_)));
}

#[test]
fn test_streamify_basic() {
    let result = streamify("TestModule", Ok(nothing()), Vec::new(), None, None, true);
    assert!(result.len() >= 2);
    assert!(
        matches!(&result[0], StreamValue::Status(s) if s.message == "Starting program execution")
    );
    assert!(matches!(&result[result.len() - 1], StreamValue::Result(_)));
}

#[test]
fn test_streamify_with_status_provider() {
    let result = streamify(
        "MyModule",
        Ok(nothing()),
        Vec::new(),
        Some("Starting MyModule".to_string()),
        Some("Completed".to_string()),
        true,
    );
    assert!(matches!(&result[0], StreamValue::Status(s) if s.message == "Starting MyModule"));
    let has_end = result
        .iter()
        .any(|v| matches!(v, StreamValue::Status(s) if s.message == "Completed"));
    assert!(has_end);
}

#[test]
fn test_streamify_error_handling() {
    let failure = Err(DspyError::Other("test error".to_string()));
    let result = streamify("ErrorModule", failure, Vec::new(), None, None, true);
    assert!(result.len() >= 2);
    let has_error = result
        .iter()
        .any(|v| matches!(v, StreamValue::Status(s) if s.message.contains("test error")));
    assert!(has_error);
}

#[test]
fn test_streamify_exclude_final_prediction() {
    let result = streamify("TestModule", Ok(nothing()), Vec::new(), None, None, false);
    let has_prediction = result.iter().any(|v| matches!(v, StreamValue::Result(_)));
    assert!(has_prediction);
}

#[test]
fn test_streamify_with_listener() {
    let listener = StreamListener::new("answer", None, false);
    let result = streamify("TestModule", Ok(nothing()), vec![listener], None, None, true);
    assert!(!result.is_empty());
    assert!(matches!(&result[0], StreamValue::Status(_)));
}

#[test]
fn a_field_that_is_no_pattern_has_no_listener() {
    assert!(StreamListener::try_new("answer", None, false).is_some());
    assert!(StreamListener::try_new("(", None, false).is_none());
}

#[test]
fn chunks_hold_what_the_field_holds() {
    let mut listener = StreamListener::new("answer", Some("p".to_string()), false);
    let mut text = String::new();
    let pieces = [
        "[[ ## answer ## ]]", "\nOne ", "two ", "three ", "four ", "five ", "six ", "seven ",
        "eight ", "nine ", "ten ", "eleven ", "[[ ##", " completed", " ## ]]", "more",
    ];
    for piece in pieces {
        assert!(listener.is_receivable(piece, AdapterType::ChatAdapter));
        if let Some(r) = listener.receive(piece, AdapterType::ChatAdapter) {
            assert_eq!(r.field_name, "answer");
            assert_eq!(r.predict_name.as_deref(), Some("p"));
            text.push_str(&r.chunk.unwrap_or_default());
        }
    }
    assert!(listener.stream_end);
    assert_eq!(text.trim(), "One two three four five six seven eight nine ten eleven");
}

/// All that a listener hands on of some parts, and whether the field has ended.
fn hand_on(field: &str, parts: &[&str], adapter: AdapterType) -> (String, bool) {
    let mut listener = StreamListener::new(field, None, false);
    let mut given = String::new();
    for part in parts {
        if let Some(response) = listener.receive(part, adapter) {
            given.push_str(&response.chunk.unwrap_or_default());
        }
    }
    let ended = listener.stream_end;
    if let Some(response) = listener.finalize() {
        given.push_str(&response.chunk.unwrap_or_default());
    }
    (given, ended)
}

#[test]
fn the_text_is_handed_on_up_to_the_marker() {
    let parts = ["[[ ##", " answer ## ]]", "Hello", " [[wor", "ld] [", "[ ##", " next ## ]]", "x"];
    let (given, ended) = hand_on("answer", &parts, AdapterType::ChatAdapter);
    assert_eq!(given, "Hello [[world]");
    assert!(ended);
}

#[test]
fn the_text_is_handed_on_up_to_the_tag() {
    let parts = ["<", "answer>1 ", "< 2", " and </b> ", "so <", "/answer", ">", "rest"];
    let (given, ended) = hand_on("answer", &parts, AdapterType::XmlAdapter);
    assert_eq!(given, "1 < 2 and </b> so");
    assert!(ended);
}

#[test]
fn the_word_before_the_quote_may_be_missing() {
    let parts = ["\"", "answer\":", "one two", " thr", "ee\", ", "\"b\": 1"];
    let (given, ended) = hand_on("answer", &parts, AdapterType::JsonAdapter);
    assert_eq!(given, "one two thr");
    assert!(ended);
}

#[test]
fn a_field_without_an_end_is_handed_on_whole() {
    let parts = ["[[ ##", " answer ## ]]", "Hello", " [[wor", "ld] [", "["];
    let (given, ended) = hand_on("answer", &parts, AdapterType::ChatAdapter);
    assert_eq!(given, "Hello [[world] [[");
    assert!(!ended);
}

#[test]
fn an_end_in_many_parts_is_handed_on_as_text() {
    let mut parts = vec!["[[ ##", " answer ## ]]", "Hi"];
    let end: Vec<String> = "[[ ## next ## ]]".chars().map(|c| c.to_string()).collect();
    parts.extend(end.iter().map(|s| s.as_str()));
    let (given, ended) = hand_on("answer", &parts, AdapterType::ChatAdapter);
    assert_eq!(given, "Hi[[ ## next ## ]]");
    assert!(!ended);
}
