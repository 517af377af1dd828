use dspy_core::json::Json;
use dspy_core::usage_tracker::{merge_usage_entries, UsageTracker};

fn number(j: &Json) -> f64 {
    j.to_text().parse().unwrap()
}

fn j(text: &str) -> Json {
    Json::parse(text).unwrap()
}

#[test]
fn test_add_usage() {
    let mut tracker = UsageTracker::new();
    tracker.add_usage("gpt-4", j(r#"{"prompt_tokens": 100, "completion_tokens": 200}"#));
    tracker.add_usage("gpt-4", j(r#"{"prompt_tokens": 50, "completion_tokens": 100}"#));
    assert_eq!(tracker.usage_data.get("gpt-4").unwrap().len(), 2);
}

#[test]
fn test_empty_entry_skipped() {
    let mut tracker = UsageTracker::new();
    tracker.add_usage("gpt-4", j(r#"{}"#));
    assert!(!tracker.usage_data.contains_key("gpt-4"));
}

#[test]
fn test_get_total_tokens() {
    let mut tracker = UsageTracker::new();
    tracker.add_usage("gpt-4", j(r#"{"prompt_tokens": 100, "completion_tokens": 200}"#));
    tracker.add_usage("gpt-4", j(r#"{"prompt_tokens": 50, "completion_tokens": 100}"#));
    tracker.add_usage("gpt-3.5", j(r#"{"prompt_tokens": 10}"#));

    let totals = tracker.get_total_tokens();
    assert_eq!(number(totals.get("gpt-4").unwrap().get("prompt_tokens").unwrap()), 150.0);
    assert_eq!(number(totals.get("gpt-4").unwrap().get("completion_tokens").unwrap()), 300.0);
    assert_eq!(number(totals.get("gpt-3.5").unwrap().get("prompt_tokens").unwrap()), 10.0);
}

#[test]
fn test_merge_nested() {
    let mut tracker = UsageTracker::new();
    tracker.add_usage("m", j(r#"{"tokens": {"cached": 5, "new": 10}}"#));
    tracker.add_usage("m", j(r#"{"tokens": {"cached": 3, "new": 7}}"#));

    let totals = tracker.get_total_tokens();
    assert_eq!(number(totals.get("m").unwrap().get("tokens").unwrap().get("cached").unwrap()), 8.0);
    assert_eq!(number(totals.get("m").unwrap().get("tokens").unwrap().get("new").unwrap()), 17.0);
}

#[test]
fn an_object_wins_over_a_number() {
    let merged = merge_usage_entries(&j(r#"{"a": {"b": 1}}"#), &j(r#"{"a": 5, "c": 2}"#));
    assert_eq!(merged.to_text(), r#"{"a":{"b":1},"c":2}"#);
}

#[test]
fn sums_are_floating() {
    let merged = merge_usage_entries(&j(r#"{"a": 1}"#), &j(r#"{"a": 2}"#));
    assert_eq!(merged.to_text(), r#"{"a":3.0}"#);
    let merged = merge_usage_entries(&j(r#"{"a": 1e308}"#), &j(r#"{"a": 1e308}"#));
    assert_eq!(merged.to_text(), r#"{"a":0}"#);
}
