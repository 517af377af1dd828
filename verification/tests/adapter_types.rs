use base64::Engine;
use dspy_core::adapter_types::{
    split_message_content_for_custom_types, AdapterType, AdapterTypeOutput, Audio, Citation,
    Citations, Code, DSPyFile, Document, DocumentMediaType, History, Image, MessageContent,
    Reasoning, TypedMessage, CUSTOM_TYPE_END, CUSTOM_TYPE_START,
};
use dspy_core::json::Json;
use dspy_core::strmap::StrMap;

fn j(text: &str) -> Json {
    Json::parse(text).unwrap()
}

#[test]
fn image_format_returns_content_block() {
    let img = Image::new("https://example.com/photo.jpg");
    match img.format() {
        AdapterTypeOutput::Blocks(blocks) => {
            assert_eq!(blocks.len(), 1);
            assert_eq!(blocks[0].get("type").unwrap().as_str(), Some("image_url"));
            let inner = blocks[0].get("image_url").unwrap().as_object().unwrap();
            assert_eq!(inner.get("url").unwrap().as_str(), Some("https://example.com/photo.jpg"));
        }
        _ => panic!("Expected Blocks"),
    }
}

#[test]
fn image_serialize_wraps_in_markers() {
    let img = Image::new("https://example.com/photo.jpg");
    let s = img.serialize();
    assert!(s.contains(CUSTOM_TYPE_START));
    assert!(s.contains(CUSTOM_TYPE_END));
    assert!(s.contains("image_url"));
}

#[test]
fn image_from_bytes_creates_data_uri() {
    let bytes = vec![0x89, 0x50, 0x4e, 0x47];
    let img = Image::from_bytes(&bytes, "image/png");
    assert!(img.url.starts_with("data:image/png;base64,"));
    let b64 = img.url.split(',').nth(1).unwrap();
    let decoded = base64::engine::general_purpose::STANDARD
        .decode(b64)
        .unwrap();
    assert_eq!(decoded, bytes);
}

#[test]
fn audio_format_returns_content_block() {
    let audio = Audio::new("base64data", "wav");
    match audio.format() {
        AdapterTypeOutput::Blocks(blocks) => {
            assert_eq!(blocks.len(), 1);
            assert_eq!(blocks[0].get("type").unwrap().as_str(), Some("input_audio"));
            let inner = blocks[0].get("input_audio").unwrap().as_object().unwrap();
            assert_eq!(inner.get("data").unwrap().as_str(), Some("base64data"));
            assert_eq!(inner.get("format").unwrap().as_str(), Some("wav"));
        }
        _ => panic!("Expected Blocks"),
    }
}

#[test]
fn audio_from_bytes() {
    let bytes = vec![0x52, 0x49, 0x46, 0x46];
    let audio = Audio::from_bytes(&bytes, "wav");
    assert_eq!(audio.audio_format, "wav");
    let decoded = base64::engine::general_purpose::STANDARD
        .decode(&audio.data)
        .unwrap();
    assert_eq!(decoded, bytes);
}

#[test]
fn audio_from_data_uri() {
    let b64 = base64::engine::general_purpose::STANDARD.encode(b"test audio");
    let uri = format!("data:audio/wav;base64,{}", b64);
    let audio = Audio::from_data_uri(&uri);
    assert_eq!(audio.audio_format, "wav");
    assert_eq!(audio.data, b64);
}

#[test]
fn audio_from_data_uri_strips_x_prefix() {
    let b64 = base64::engine::general_purpose::STANDARD.encode(b"test");
    let uri = format!("data:audio/x-wav;base64,{}", b64);
    let audio = Audio::from_data_uri(&uri);
    assert_eq!(audio.audio_format, "wav");
}

#[test]
fn dspy_file_format_with_data() {
    let file = DSPyFile::new(
        Some("data:application/pdf;base64,abc123".into()),
        None,
        Some("test.pdf".into()),
    );
    match file.format() {
        AdapterTypeOutput::Blocks(blocks) => {
            assert_eq!(blocks.len(), 1);
            assert_eq!(blocks[0].get("type").unwrap().as_str(), Some("file"));
            let inner = blocks[0].get("file").unwrap().as_object().unwrap();
            assert_eq!(inner.get("file_data").unwrap().as_str(), Some("data:application/pdf;base64,abc123"));
            assert_eq!(inner.get("filename").unwrap().as_str(), Some("test.pdf"));
        }
        _ => panic!("Expected Blocks"),
    }
}

#[test]
fn dspy_file_from_file_id() {
    let file = DSPyFile::from_file_id("file-123", Some("doc.pdf".into()));
    match file.format() {
        AdapterTypeOutput::Blocks(blocks) => {
            let inner = blocks[0].get("file").unwrap().as_object().unwrap();
            assert_eq!(inner.get("file_id").unwrap().as_str(), Some("file-123"));
            assert_eq!(inner.get("filename").unwrap().as_str(), Some("doc.pdf"));
        }
        _ => panic!("Expected Blocks"),
    }
}

#[test]
fn dspy_file_from_bytes() {
    let file = DSPyFile::from_bytes(b"content", Some("test.txt"), "text/plain");
    assert!(file.file_data.as_ref().unwrap().starts_with("data:text/plain;base64,"));
    assert_eq!(file.filename.as_deref(), Some("test.txt"));
}

#[test]
fn history_stores_messages() {
    let mut msg = StrMap::new();
    msg.insert("role".to_string(), Json::Text("user".to_string()));
    msg.insert("content".to_string(), Json::Text("Hello".to_string()));
    let history = History::new(vec![msg]);
    assert_eq!(history.messages.len(), 1);
}

#[test]
fn history_to_string_is_json() {
    let mut msg = StrMap::new();
    msg.insert("role".to_string(), Json::Text("user".to_string()));
    let history = History::new(vec![msg]);
    let s = history.to_text();
    let parsed = j(&s);
    assert_eq!(parsed.as_array().unwrap().len(), 1);
}

#[test]
fn code_format_returns_raw_code() {
    let code = Code::new("print('hello')", "python");
    match code.format() {
        AdapterTypeOutput::Text(s) => assert_eq!(s, "print('hello')"),
        _ => panic!("Expected Text"),
    }
}

#[test]
fn code_strips_markdown_with_language() {
    let code = Code::new("```python\nprint('hello')\n```", "python");
    assert_eq!(code.code, "print('hello')");
}

#[test]
fn code_strips_markdown_without_language() {
    let code = Code::new("```\nsome code\n```", "python");
    assert_eq!(code.code, "some code");
}

#[test]
fn code_preserves_plain_code() {
    let code = Code::new("x = 1\ny = 2", "python");
    assert_eq!(code.code, "x = 1\ny = 2");
}

#[test]
fn code_serialize_no_markers() {
    let code = Code::new("x = 1", "python");
    let s = code.serialize();
    assert_eq!(s, "x = 1");
    assert!(!s.contains(CUSTOM_TYPE_START));
}

#[test]
fn code_description_includes_language() {
    let desc = Code::description_with_language("javascript");
    assert!(desc.contains("javascript"));
}

#[test]
fn reasoning_format_returns_content() {
    let r = Reasoning::new("Step 1: Think carefully");
    match r.format() {
        AdapterTypeOutput::Text(s) => assert_eq!(s, "Step 1: Think carefully"),
        _ => panic!("Expected Text"),
    }
}

#[test]
fn reasoning_serialize_no_markers() {
    let r = Reasoning::new("reasoning text");
    let s = r.serialize();
    assert_eq!(s, "reasoning text");
    assert!(!s.contains(CUSTOM_TYPE_START));
}

#[test]
fn reasoning_str_methods() {
    let r = Reasoning::new("  Hello World  ");
    assert_eq!(r.len(), 15);
    assert!(!r.is_empty());
    assert!(r.contains("World"));
    assert!(!r.contains("xyz"));
    assert_eq!(r.trim(), "Hello World");
    assert_eq!(r.to_lowercase(), "  hello world  ");
    assert_eq!(r.to_uppercase(), "  HELLO WORLD  ");
}

#[test]
fn reasoning_from_lm_response() {
    let mut resp = StrMap::new();
    resp.insert("reasoning_content".to_string(),
        Json::Text("I think therefore I am".to_string()),
    );
    let r = Reasoning::from_lm_response(&resp);
    assert!(r.is_some());
    assert_eq!(r.unwrap().content, "I think therefore I am");
}

#[test]
fn reasoning_from_lm_response_returns_none() {
    let mut resp = StrMap::new();
    resp.insert("text".to_string(), Json::Text("just text".to_string()));
    assert!(Reasoning::from_lm_response(&resp).is_none());
}

#[test]
fn document_from_string() {
    let doc = Document::new("Hello world");
    assert_eq!(doc.data, "Hello world");
    assert_eq!(doc.media_type, DocumentMediaType::TextPlain);
    assert!(doc.title.is_none());
    assert!(doc.context.is_none());
}

#[test]
fn document_with_all_fields() {
    let doc = Document::with_options(
        "The Earth orbits the Sun.",
        Some("Astronomy Facts".into()),
        DocumentMediaType::ApplicationPdf,
        Some("Science textbook".into()),
    );
    assert_eq!(doc.data, "The Earth orbits the Sun.");
    assert_eq!(doc.title.as_deref(), Some("Astronomy Facts"));
    assert_eq!(doc.media_type, DocumentMediaType::ApplicationPdf);
    assert_eq!(doc.context.as_deref(), Some("Science textbook"));
}

#[test]
fn document_format_returns_document_block() {
    let doc = Document::with_options(
        "Water boils at 100C.",
        Some("Physics".into()),
        DocumentMediaType::TextPlain,
        None,
    );
    match doc.format() {
        AdapterTypeOutput::Blocks(blocks) => {
            assert_eq!(blocks.len(), 1);
            assert_eq!(blocks[0].get("type").unwrap().as_str(), Some("document"));
            let source = blocks[0].get("source").unwrap().as_object().unwrap();
            assert_eq!(source.get("type").unwrap().as_str(), Some("text"));
            assert_eq!(source.get("media_type").unwrap().as_str(), Some("text/plain"));
            assert_eq!(source.get("data").unwrap().as_str(), Some("Water boils at 100C."));
            let cit = blocks[0].get("citations").unwrap().as_object().unwrap();
            assert_eq!(cit.get("enabled").unwrap().as_bool(), Some(true));
            assert_eq!(blocks[0].get("title").unwrap().as_str(), Some("Physics"));
        }
        _ => panic!("Expected Blocks"),
    }
}

#[test]
fn document_format_omits_optional_fields() {
    let doc = Document::new("Just data");
    match doc.format() {
        AdapterTypeOutput::Blocks(blocks) => {
            assert!(blocks[0].get("title").is_none());
            assert!(blocks[0].get("context").is_none());
        }
        _ => panic!("Expected Blocks"),
    }
}

#[test]
fn document_display_with_title() {
    let doc = Document::with_options(
        "Hello",
        Some("Greeting".into()),
        DocumentMediaType::TextPlain,
        None,
    );
    assert_eq!(doc.to_text(), "Document('Greeting': 5 chars)");
}

#[test]
fn document_display_without_title() {
    let doc = Document::new("Hello");
    assert_eq!(doc.to_text(), "Document(5 chars)");
}

#[test]
fn document_serialize_wraps_in_markers() {
    let doc = Document::new("test");
    let s = doc.serialize();
    assert!(s.contains(CUSTOM_TYPE_START));
    assert!(s.contains(CUSTOM_TYPE_END));
    assert!(s.contains("document"));
}

#[test]
fn document_description_non_empty() {
    let desc = Document::description();
    assert!(!desc.is_empty());
    assert!(desc.contains("document"));
}

#[test]
fn citation_new_with_required_fields() {
    let c = Citation::new("The sky is blue", 0, 0, 15);
    assert_eq!(c.citation_type, "char_location");
    assert_eq!(c.cited_text, "The sky is blue");
    assert_eq!(c.document_index, 0);
    assert_eq!(c.start_char_index, 0);
    assert_eq!(c.end_char_index, 15);
    assert!(c.document_title.is_none());
    assert!(c.supported_text.is_none());
}

#[test]
fn citation_with_all_fields() {
    let c = Citation::with_options(
        "custom",
        "quote",
        1,
        Some("Doc Title".into()),
        10,
        20,
        Some("full sentence".into()),
    );
    assert_eq!(c.citation_type, "custom");
    assert_eq!(c.document_title.as_deref(), Some("Doc Title"));
    assert_eq!(c.supported_text.as_deref(), Some("full sentence"));
}

#[test]
fn citation_format_includes_required_and_optional() {
    let c = Citation::with_options(
        "char_location",
        "test",
        0,
        Some("Title".into()),
        0,
        4,
        Some("test sentence".into()),
    );
    let f = c.format();
    assert_eq!(f.get("type").unwrap().as_str(), Some("char_location"));
    assert_eq!(f.get("cited_text").unwrap().as_str(), Some("test"));
    assert_eq!(f.get("document_index").unwrap().as_i64(), Some(0));
    assert_eq!(f.get("start_char_index").unwrap().as_i64(), Some(0));
    assert_eq!(f.get("end_char_index").unwrap().as_i64(), Some(4));
    assert_eq!(f.get("document_title").unwrap().as_str(), Some("Title"));
    assert_eq!(f.get("supported_text").unwrap().as_str(), Some("test sentence"));
}

#[test]
fn citation_format_omits_optional_when_none() {
    let c = Citation::new("text", 0, 0, 4);
    let f = c.format();
    assert!(!f.contains_key("document_title"));
    assert!(!f.contains_key("supported_text"));
}

#[test]
fn citations_from_json_list() {
    let dicts = vec![
        j(r#"{ "cited_text": "sky is blue", "document_index": 0, "document_title": "Weather", "start_char_index": 0, "end_char_index": 11 }"#),
        j(r#"{ "cited_text": "water is wet", "document_index": 1, "start_char_index": 5, "end_char_index": 17 }"#),
    ];
    let citations = Citations::from_json_list(&dicts);
    assert_eq!(citations.len(), 2);
    assert_eq!(citations.citations[0].cited_text, "sky is blue");
    assert_eq!(
        citations.citations[0].document_title.as_deref(),
        Some("Weather")
    );
    assert!(citations.citations[1].document_title.is_none());
}

#[test]
fn citations_parse_lm_response() {
    let mut resp = StrMap::new();
    resp.insert("citations".to_string(),
        j(r#"[ { "cited_text": "test", "document_index": 0, "start_char_index": 0, "end_char_index": 4 } ]"#),
    );
    let citations = Citations::parse_lm_response(&resp);
    assert!(citations.is_some());
    assert_eq!(citations.unwrap().len(), 1);
}

#[test]
fn citations_parse_lm_response_returns_none() {
    let resp: StrMap<Json> = StrMap::new();
    assert!(Citations::parse_lm_response(&resp).is_none());

    let mut resp2 = StrMap::new();
    resp2.insert("text".to_string(), Json::Text("hello".to_string()));
    assert!(Citations::parse_lm_response(&resp2).is_none());
}

#[test]
fn citations_format_returns_blocks() {
    let c = Citations::new(vec![Citation::new("test", 0, 0, 4)]);
    match c.format() {
        AdapterTypeOutput::Blocks(blocks) => {
            assert_eq!(blocks.len(), 1);
            assert_eq!(blocks[0].get("cited_text").unwrap().as_str(), Some("test"));
        }
        _ => panic!("Expected Blocks"),
    }
}

#[test]
fn citations_display() {
    let c = Citations::new(vec![
        Citation::new("a", 0, 0, 1),
        Citation::new("b", 1, 0, 1),
    ]);
    assert_eq!(c.to_text(), "Citations(2 citations)");
}

#[test]
fn citations_serialize_wraps_in_markers() {
    let c = Citations::new(vec![Citation::new("test", 0, 0, 4)]);
    let s = c.serialize();
    assert!(s.contains(CUSTOM_TYPE_START));
    assert!(s.contains(CUSTOM_TYPE_END));
}

#[test]
fn citations_description_non_empty() {
    let desc = Citations::description();
    assert!(!desc.is_empty());
}

#[test]
fn citations_iter() {
    let c = Citations::new(vec![
        Citation::new("a", 0, 0, 1),
        Citation::new("b", 1, 0, 1),
    ]);
    let texts: Vec<&str> = c.iter().map(|c| c.cited_text.as_str()).collect();
    assert_eq!(texts, vec!["a", "b"]);
}

#[test]
fn split_leaves_non_user_unchanged() {
    let mut messages = vec![TypedMessage {
        role: "assistant".into(),
        content: MessageContent::Text("hello".into()),
    }];
    split_message_content_for_custom_types(&mut messages);
    match &messages[0].content {
        MessageContent::Text(s) => assert_eq!(s, "hello"),
        _ => panic!("Should remain Text"),
    }
}

#[test]
fn split_leaves_user_without_types_unchanged() {
    let mut messages = vec![TypedMessage {
        role: "user".into(),
        content: MessageContent::Text("just text".into()),
    }];
    split_message_content_for_custom_types(&mut messages);
    match &messages[0].content {
        MessageContent::Text(s) => assert_eq!(s, "just text"),
        _ => panic!("Should remain Text"),
    }
}

#[test]
fn split_user_message_with_embedded_type() {
    let img_json = j(r#"[{"type": "image_url", "image_url": {"url": "https://example.com/img.png"}}]"#);
    let content = format!(
        "Look at this: {}{}{} What do you see?",
        CUSTOM_TYPE_START, img_json.to_text(), CUSTOM_TYPE_END
    );
    let mut messages = vec![TypedMessage {
        role: "user".into(),
        content: MessageContent::Text(content),
    }];
    split_message_content_for_custom_types(&mut messages);

    match &messages[0].content {
        MessageContent::Blocks(blocks) => {
            assert_eq!(blocks.len(), 3);
            assert_eq!(blocks[0].get("text").unwrap().as_str(), Some("Look at this: "));
            assert_eq!(blocks[1].get("type").unwrap().as_str(), Some("image_url"));
            assert_eq!(blocks[2].get("text").unwrap().as_str(), Some(" What do you see?"));
        }
        _ => panic!("Should be Blocks"),
    }
}

#[test]
fn split_multiple_custom_types() {
    let img1 = j(r#"[{"type": "image_url", "image_url": {"url": "a"}}]"#);
    let img2 = j(r#"[{"type": "image_url", "image_url": {"url": "b"}}]"#);
    let content = format!(
        "{}{}{} and {}{}{}",
        CUSTOM_TYPE_START, img1.to_text(), CUSTOM_TYPE_END,
        CUSTOM_TYPE_START, img2.to_text(), CUSTOM_TYPE_END
    );
    let mut messages = vec![TypedMessage {
        role: "user".into(),
        content: MessageContent::Text(content),
    }];
    split_message_content_for_custom_types(&mut messages);

    match &messages[0].content {
        MessageContent::Blocks(blocks) => {
            assert_eq!(blocks.len(), 3);
            assert_eq!(blocks[0].get("type").unwrap().as_str(), Some("image_url"));
            assert_eq!(blocks[1].get("text").unwrap().as_str(), Some(" and "));
            assert_eq!(blocks[2].get("type").unwrap().as_str(), Some("image_url"));
        }
        _ => panic!("Should be Blocks"),
    }
}

#[test]
fn split_handles_invalid_json_gracefully() {
    let content = format!("{}not json{}", CUSTOM_TYPE_START, CUSTOM_TYPE_END);
    let mut messages = vec![TypedMessage {
        role: "user".into(),
        content: MessageContent::Text(content),
    }];
    split_message_content_for_custom_types(&mut messages);

    match &messages[0].content {
        MessageContent::Blocks(blocks) => {
            assert_eq!(blocks.len(), 1);
            assert_eq!(blocks[0].get("text").unwrap().as_str(), Some("not json"));
        }
        _ => panic!("Should be Blocks"),
    }
}

#[test]
fn end_to_end_image_serialize_then_split() {
    let img = Image::new("https://example.com/photo.jpg");
    let content = format!("Describe this image: {}", img.serialize());
    let mut messages = vec![TypedMessage {
        role: "user".into(),
        content: MessageContent::Text(content),
    }];
    split_message_content_for_custom_types(&mut messages);

    match &messages[0].content {
        MessageContent::Blocks(blocks) => {
            assert_eq!(blocks.len(), 2);
            assert_eq!(blocks[0].get("text").unwrap().as_str(), Some("Describe this image: "));
            assert_eq!(blocks[1].get("type").unwrap().as_str(), Some("image_url"));
            let inner = blocks[1].get("image_url").unwrap().as_object().unwrap();
            assert_eq!(inner.get("url").unwrap().as_str(), Some("https://example.com/photo.jpg"));
        }
        _ => panic!("Should be Blocks"),
    }
}

#[test]
fn nothing_is_said_of_reasoning() {
    assert_eq!(Reasoning::description(), "");
}

#[test]
fn reasoning_changes_case_letter_by_letter() {
    let r = Reasoning::new("Az[09] `Zz{");
    assert_eq!(r.to_lowercase(), "az[09] `zz{");
    assert_eq!(r.to_uppercase(), "AZ[09] `ZZ{");
}
