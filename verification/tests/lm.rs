use dspy_core::cache::{Cache, CacheConfig};
use dspy_core::json::Json;
use dspy_core::lm::{
    cache_request, clear_history, configure_cache, inspect_history, record_global_history,
    reset_global_cache, responses_from_json, responses_to_json, return_effective_cache,
    set_max_history_size,
    take_effective_cache, CallContext, CallStep, GlobalHistory, HistoryEntry, LMConfig, LMResponse,
    SharedCache, Usage,
};
use dspy_core::message::Message;
use dspy_core::usage_tracker::UsageTracker;

struct MockLM {
    responses: Vec<LMResponse>,
    calls: usize,
}

impl MockLM {
    fn new(responses: Vec<LMResponse>) -> Self {
        Self { responses, calls: 0 }
    }

    fn call(&mut self) -> Vec<LMResponse> {
        let idx = self.calls.min(self.responses.len() - 1);
        self.calls += 1;
        vec![self.responses[idx].clone()]
    }
}

fn reply(text: &str, usage: Option<Usage>) -> LMResponse {
    LMResponse::new(text.to_string(), usage)
}

fn context(use_cache: bool) -> CallContext {
    CallContext {
        cache: if use_cache { Some(Cache::default_memory_only()) } else { None },
        history: GlobalHistory::new(),
        usage_tracker: None,
        disable_history: false,
    }
}

fn call_with_cache(lm: &mut MockLM, context: &mut CallContext) -> Vec<LMResponse> {
    let messages = vec![Message::user("hi")];
    let config = LMConfig::new("test-model");
    match context.begin("test-model", &messages, &config, None, "0") {
        CallStep::Answered(replies) => replies,
        CallStep::Ask(request) => {
            let replies = lm.call();
            context.finish("test-model", &messages, request, &replies, "0");
            replies
        }
    }
}

fn prompt_tokens(tracker: &UsageTracker) -> f64 {
    let totals = tracker.get_total_tokens();
    let entry = totals.get("test-model").unwrap();
    entry.get("prompt_tokens").unwrap().to_text().parse().unwrap()
}

#[test]
fn test_call_with_cache_hit() {
    let mut lm = MockLM::new(vec![reply("hello", None)]);
    let mut context = context(true);
    let r1 = call_with_cache(&mut lm, &mut context);
    assert_eq!(r1[0].text, "hello");
    assert_eq!(lm.calls, 1);
    let r2 = call_with_cache(&mut lm, &mut context);
    assert_eq!(r2[0].text, "hello");
    assert_eq!(lm.calls, 1);
}

#[test]
fn test_cache_disabled() {
    let mut lm = MockLM::new(vec![reply("first", None), reply("second", None)]);
    let mut context = context(false);
    let r1 = call_with_cache(&mut lm, &mut context);
    assert_eq!(r1[0].text, "first");
    let r2 = call_with_cache(&mut lm, &mut context);
    assert_eq!(r2[0].text, "second");
    assert_eq!(lm.calls, 2);
}

#[test]
fn test_settings_cache_disabled() {
    let mut lm = MockLM::new(vec![reply("a", None), reply("b", None)]);
    let mut context = context(false);
    let r1 = call_with_cache(&mut lm, &mut context);
    assert_eq!(r1[0].text, "a");
    let r2 = call_with_cache(&mut lm, &mut context);
    assert_eq!(r2[0].text, "b");
    assert_eq!(lm.calls, 2);
}

#[test]
fn test_history_recording() {
    let mut lm = MockLM::new(vec![reply("hello", None)]);
    let mut context = context(false);
    call_with_cache(&mut lm, &mut context);
    let history = inspect_history(&context.history, 1);
    assert_eq!(history.len(), 1);
    assert_eq!(history[0].model, "test-model");
    assert!(!history[0].cache_hit);
}

#[test]
fn test_history_cache_hit_recorded() {
    let mut lm = MockLM::new(vec![reply("hello", None)]);
    let mut context = context(true);
    call_with_cache(&mut lm, &mut context);
    call_with_cache(&mut lm, &mut context);
    let history = inspect_history(&context.history, 2);
    assert_eq!(history.len(), 2);
    assert!(!history[0].cache_hit);
    assert!(history[1].cache_hit);
}

#[test]
fn test_disable_history() {
    let mut lm = MockLM::new(vec![reply("hello", None)]);
    let mut context = context(false);
    context.disable_history = true;
    call_with_cache(&mut lm, &mut context);
    assert_eq!(inspect_history(&context.history, 10).len(), 0);
}

#[test]
fn test_usage_tracking() {
    let usage = Usage { prompt_tokens: 100, completion_tokens: 50 };
    let mut lm = MockLM::new(vec![reply("hello", Some(usage))]);
    let mut context = context(false);
    context.usage_tracker = Some(UsageTracker::new());
    call_with_cache(&mut lm, &mut context);
    let tracker = context.usage_tracker.unwrap();
    assert!(tracker.get_total_tokens().contains_key("test-model"));
    assert_eq!(prompt_tokens(&tracker), 100.0);
}

#[test]
fn test_cache_hit_skips_usage() {
    let usage = Usage { prompt_tokens: 100, completion_tokens: 50 };
    let mut lm = MockLM::new(vec![reply("hello", Some(usage))]);
    let mut context = context(true);
    context.usage_tracker = Some(UsageTracker::new());
    call_with_cache(&mut lm, &mut context);
    call_with_cache(&mut lm, &mut context);
    assert_eq!(prompt_tokens(&context.usage_tracker.unwrap()), 100.0);
}

#[test]
fn test_inspect_history_last_n() {
    let mut history = GlobalHistory::new();
    clear_history(&mut history);
    for i in 0..5 {
        record_global_history(
            &mut history,
            HistoryEntry {
                messages: vec![Message::user(&format!("msg{}", i))],
                response: vec![reply(&format!("resp{}", i), None)],
                model: "m".to_string(),
                cache_hit: false,
                timestamp: "0".to_string(),
            },
        );
    }
    let last2 = inspect_history(&history, 2);
    assert_eq!(last2.len(), 2);
    assert_eq!(last2[0].messages[0].content, "msg3");
    assert_eq!(last2[1].messages[0].content, "msg4");
}

#[test]
fn replies_are_read_back() {
    let usage = Usage { prompt_tokens: 1, completion_tokens: 2 };
    let replies = vec![reply("a\n", Some(usage)), reply("", None)];
    let text = responses_to_json(&replies).to_text();
    let back = responses_from_json(&Json::parse(&text).unwrap()).unwrap();
    assert_eq!(back.len(), 2);
    assert_eq!(back[0].text, "a\n");
    assert_eq!(back[0].usage, Some(usage));
    assert_eq!(back[1].usage, None);
    assert!(responses_from_json(&Json::parse("{}").unwrap()).is_none());
}

#[test]
fn the_cache_that_was_set_up_goes_first() {
    let mut shared = SharedCache::new();
    let cache = take_effective_cache(&mut shared);
    return_effective_cache(&mut shared, cache, false);
    assert!(shared.global.is_some());
    let config = CacheConfig { disk_cache_dir: "mine".to_string(), ..Default::default() };
    configure_cache(&mut shared, config);
    let cache = take_effective_cache(&mut shared);
    assert_eq!(cache.dir(), "mine");
    return_effective_cache(&mut shared, cache, true);
    reset_global_cache(&mut shared);
    assert!(shared.global.is_none() && shared.configured.is_none());
}

#[test]
fn requests_tell_calls_apart() {
    let config = LMConfig::new("m");
    let a = cache_request("m", &vec![Message::user("a")], &config);
    let b = cache_request("m", &vec![Message::user("b")], &config);
    assert_ne!(a.to_text(), b.to_text());
}

fn entry(text: &str) -> HistoryEntry {
    HistoryEntry {
        messages: vec![Message::user(text)],
        response: vec![],
        model: "m".to_string(),
        cache_hit: false,
        timestamp: "0".to_string(),
    }
}

#[test]
fn the_history_holds_as_many_calls_as_it_may() {
    let said = |h: &GlobalHistory| -> Vec<String> {
        inspect_history(h, 100).iter().map(|e| e.messages[0].content.clone()).collect()
    };
    let mut history = GlobalHistory::new();
    for text in ["a", "b", "c"] {
        record_global_history(&mut history, entry(text));
    }
    set_max_history_size(&mut history, 2);
    assert_eq!(said(&history), vec!["b", "c"]);
    record_global_history(&mut history, entry("d"));
    assert_eq!(said(&history), vec!["c", "d"]);
    clear_history(&mut history);
    for text in ["e", "f", "g"] {
        record_global_history(&mut history, entry(text));
    }
    assert_eq!(said(&history), vec!["f", "g"]);
    set_max_history_size(&mut history, 0);
    record_global_history(&mut history, entry("h"));
    assert!(said(&history).is_empty());
}

#[test]
fn a_call_is_answered_from_its_file() {
    let config = CacheConfig {
        enable_memory_cache: false,
        enable_disk_cache: true,
        ..Default::default()
    };
    let mut context = context(false);
    context.cache = Some(Cache::new(config));
    let messages = vec![Message::user("hi")];
    let config = LMConfig::new("m");
    let usage = Usage { prompt_tokens: 1, completion_tokens: 2 };
    let request = match context.begin("m", &messages, &config, None, "0") {
        CallStep::Ask(request) => request,
        CallStep::Answered(_) => panic!("nothing was stored"),
    };
    let replies = vec![reply("hello", Some(usage))];
    let write = context.finish("m", &messages, request, &replies, "0").unwrap();
    match context.begin("m", &messages, &config, Some(&write.data), "1") {
        CallStep::Answered(found) => {
            assert_eq!(found[0].text, "hello");
            assert_eq!(found[0].usage, Some(usage));
        }
        CallStep::Ask(_) => panic!("the file has the replies"),
    }
}
