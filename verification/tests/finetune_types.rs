use dspy_core::finetune_types::{
    infer_data_format, validate_data_format, GRPOChatData, GRPOGroup, TrainDataFormat,
    TrainingMessage, TrainingStatus,
};
use dspy_core::json::{Json, JsonFloat};

fn j(text: &str) -> Json {
    Json::parse(text).unwrap()
}

#[test]
fn test_training_status() {
    assert_ne!(TrainingStatus::Running, TrainingStatus::Failed);
    assert_eq!(TrainingStatus::Succeeded, TrainingStatus::Succeeded);
}

#[test]
fn test_train_data_format() {
    assert_ne!(TrainDataFormat::Chat, TrainDataFormat::Completion);
    assert_eq!(TrainDataFormat::GrpoChat, TrainDataFormat::GrpoChat);
}

#[test]
fn test_infer_data_format() {
    assert_eq!(
        infer_data_format("ChatAdapter").unwrap(),
        TrainDataFormat::Chat
    );
    assert_eq!(
        infer_data_format("XMLAdapter").unwrap(),
        TrainDataFormat::Chat
    );
    assert!(infer_data_format("Unknown").is_err());
}

#[test]
fn test_validate_chat_format_valid() {
    let data = vec![j(r#"{ "messages": [ {"role": "user", "content": "hello"}, {"role": "assistant", "content": "hi"} ] }"#)];
    assert!(validate_data_format(&data, TrainDataFormat::Chat).is_ok());
}

#[test]
fn test_validate_chat_format_invalid_keys() {
    let data = vec![j(r#"{ "messages": [], "extra": "bad" }"#)];
    assert!(validate_data_format(&data, TrainDataFormat::Chat).is_err());
}

#[test]
fn test_validate_chat_format_invalid_role() {
    let data = vec![j(r#"{ "messages": [ {"role": "invalid", "content": "hello"} ] }"#)];
    assert!(validate_data_format(&data, TrainDataFormat::Chat).is_err());
}

#[test]
fn test_validate_completion_format_valid() {
    let data = vec![j(r#"{ "prompt": "hello", "completion": "world" }"#)];
    assert!(validate_data_format(&data, TrainDataFormat::Completion).is_ok());
}

#[test]
fn test_validate_completion_format_invalid() {
    let data = vec![j(r#"{ "prompt": "hello" }"#)];
    assert!(validate_data_format(&data, TrainDataFormat::Completion).is_err());
}

#[test]
fn test_grpo_chat_data() {
    let data = GRPOChatData {
        messages: vec![TrainingMessage::user("hello")],
        completion: TrainingMessage::assistant("hi"),
        reward: JsonFloat::parse("1.0").unwrap(),
    };
    assert_eq!(data.messages.len(), 1);
    assert_eq!(data.reward.as_text(), "1.0");
}

#[test]
fn test_grpo_group() {
    let group = GRPOGroup {
        batch_id: Some(0),
        group: vec![],
    };
    assert_eq!(group.batch_id, Some(0));
}

#[test]
fn an_error_names_the_item() {
    let data = vec![
        j(r#"{"prompt": "a", "completion": "b"}"#),
        j(r#"{"prompt": "a", "completion": 3}"#),
    ];
    let error = validate_data_format(&data, TrainDataFormat::Completion).unwrap_err();
    assert!(error.message().contains("1"));
}

#[test]
fn statuses_have_texts() {
    assert_eq!(TrainingStatus::NotStarted.to_text(), "not_started");
    assert_eq!(TrainDataFormat::GrpoChat.to_text(), "grpo_chat");
}
