use dspy_core::adapter_types::{Audio, DSPyFile, Image};
use dspy_core::aggregation::default_normalize;
use dspy_core::json::{Json, JsonFloat};
use dspy_core::json_adapter::json_value_to_dspy_value;
use dspy_core::streaming::{AdapterType, StreamListener};
use dspy_core::strmap::StrMap;
use dspy_core::tool::quote_list;
use dspy_core::value::Value;
use dspy_core::xml_adapter::XMLAdapter;

fn heard(listener: &mut StreamListener, pieces: &[&str], adapter: AdapterType) -> String {
    let mut text = String::new();
    for piece in pieces {
        assert!(listener.is_receivable(piece, adapter));
        if let Some(r) = listener.receive(piece, adapter) {
            text.push_str(&r.chunk.unwrap_or_default());
        }
    }
    text
}

#[test]
fn a_field_between_tags_is_streamed() {
    let mut listener = StreamListener::new("answer", None, false);
    let pieces = [
        "<answer>", "One ", "two ", "three ", "four ", "five ", "six ", "seven ", "eight ",
        "nine ", "ten ", "eleven ", "</answer>", "rest",
    ];
    let text = heard(&mut listener, &pieces, AdapterType::XmlAdapter);
    assert!(listener.stream_end);
    assert_eq!(text.trim(), "One two three four five six seven eight nine ten eleven");
}

#[test]
fn a_field_of_an_object_is_streamed() {
    let mut listener = StreamListener::new("answer", None, false);
    let pieces = [
        "{\"answer\":", "\"One ", "two ", "three ", "four ", "five ", "six ", "seven ", "eight ",
        "nine ", "ten\"", "}", "rest",
    ];
    let text = heard(&mut listener, &pieces, AdapterType::JsonAdapter);
    assert!(listener.stream_start);
    assert!(text.contains("two three"));
}

#[test]
fn values_in_lists_show_their_kinds() {
    let mut m: StrMap<Value> = StrMap::new();
    m.insert("a\"b".to_string(), Value::Null);
    let v = Value::List(vec![
        Value::String("x\n".to_string()),
        Value::Float(JsonFloat::parse("2.0").unwrap()),
        Value::Object(m),
    ]);
    assert_eq!(v.to_text(), "[String(\"x\\n\"), Float(2.0), Object({\"a\\\"b\": Null})]");
    assert_eq!(
        quote_list(&vec!["a".to_string(), "b\t".to_string()]),
        format!("{:?}", vec!["a", "b\t"])
    );
}

#[test]
fn extensions_name_types_in_any_case() {
    assert!(Image::from_file_contents(b"x", "JPG").url.starts_with("data:image/jpeg;base64,"));
    assert_eq!(Image::from_file_contents(b"abc", "").url, "data:application/octet-stream;base64,YWJj");
    assert_eq!(Audio::from_file_contents(b"x", "MP3").audio_format, "mp3");
    assert_eq!(Audio::from_file_contents(b"x", "Xyz").audio_format, "xyz");
    let file = DSPyFile::from_file_contents(b"x", Some("a.PDF"), "PDF", None, None);
    assert!(file.file_data.unwrap().starts_with("data:application/pdf;base64,"));
    assert_eq!(file.filename.as_deref(), Some("a.PDF"));
}

#[test]
fn normal_forms_keep_letters_and_digits() {
    assert_eq!(default_normalize("The  Caf\u{e9}, no. 3!"), Some("the caf\u{e9} no 3".to_string()));
}

#[test]
fn tags_are_words_of_any_script() {
    let adapter = XMLAdapter::new();
    assert_eq!(
        adapter.extract_xml_fields("<\u{e9}t\u{e9}_1>x</\u{e9}t\u{e9}_1><a-b>y</a-b>"),
        vec![("\u{e9}t\u{e9}_1".to_string(), "x".to_string())]
    );
}

#[test]
fn numbers_of_a_reply_become_texts() {
    let shown = |t: &str| json_value_to_dspy_value(&Json::parse(t).unwrap()).to_text();
    assert_eq!(shown("2.50"), "2.5");
    assert_eq!(shown("true"), "true");
    assert_eq!(shown("7"), "7");
}

#[test]
fn citations_are_read_back() {
    let c = dspy_core::adapter_types::Citation::with_options(
        "char_location",
        "quote",
        1,
        Some("Title".to_string()),
        10,
        20,
        None,
    );
    let back = dspy_core::adapter_types::Citation::from_json(&Json::Object(c.format())).unwrap();
    assert_eq!(back.cited_text, "quote");
    assert_eq!(back.document_index, 1);
    assert_eq!(back.document_title.as_deref(), Some("Title"));
    assert_eq!((back.start_char_index, back.end_char_index), (10, 20));
    assert!(back.supported_text.is_none());
    let nothing = Json::parse(r#"{"cited_text": "x"}"#).unwrap();
    assert!(dspy_core::adapter_types::Citation::from_json(&nothing).is_none());
}
