use dspy_core::json::Json;
use dspy_core::provider::TrainingJob;

struct MockLM {
    model: String,
}

fn j(text: &str) -> Json {
    Json::parse(text).unwrap()
}

#[test]
fn test_training_job_defaults() {
    let job = TrainingJob::<MockLM>::new();
    assert!(job.model.is_none());
    assert!(job.train_data.is_none());
    assert!(job.train_data_format.is_none());
    assert!(job.train_kwargs.is_empty());
    assert!(!job.is_done());
    assert!(!job.is_cancelled());
    assert_eq!(job.status(), "running");
}

#[test]
fn test_training_job_with_options() {
    let job = TrainingJob::<MockLM>::new()
        .with_model("gpt-4")
        .with_train_data(vec![j(r#"{"text": "hello"}"#)]);
    assert_eq!(job.model.as_deref(), Some("gpt-4"));
    assert!(job.train_data.is_some());
}

#[test]
fn test_training_job_complete() {
    let mut job = TrainingJob::<MockLM>::new();
    job.complete(Ok(MockLM { model: "finetuned".to_string() }));
    assert!(job.is_done());
    assert_eq!(job.status(), "done");
    let result = job.result().unwrap();
    assert!(result.is_ok());
    assert_eq!(result.ok().unwrap().model, "finetuned");
}

#[test]
fn test_training_job_cancel() {
    let mut job = TrainingJob::<MockLM>::new();
    job.cancel();
    assert!(job.is_cancelled());
    assert!(job.is_done());
    assert_eq!(job.status(), "cancelled");
    let result = job.result().unwrap();
    assert!(result.is_err());
    let err = result.err().unwrap();
    assert!(err.contains("cancelled"));
}

#[test]
fn test_training_job_complete_with_error() {
    let mut job = TrainingJob::<MockLM>::new();
    job.complete(Err("Training failed".to_string()));
    assert!(job.is_done());
    let result = job.result().unwrap();
    assert!(result.is_err());
    let err = result.err().unwrap();
    assert_eq!(err, "Training failed");
}

#[test]
fn the_first_outcome_counts_and_is_handed_out_once() {
    let mut job = TrainingJob::<MockLM>::new();
    assert!(job.result().is_none());
    job.complete(Err("first".to_string()));
    job.cancel();
    assert_eq!(job.status(), "cancelled");
    assert_eq!(job.result().unwrap().err().unwrap(), "first");
    assert_eq!(job.result().unwrap().err().unwrap(), "Result already consumed");
}
