use dspy_core::cache::{is_cache_file, key_path, Cache, CacheConfig, CacheFileInfo, Eviction, LRUCache};
use dspy_core::json::Json;

fn j(text: &str) -> Json {
    Json::parse(text).unwrap()
}

#[test]
fn test_cache_memory_hit() {
    let mut cache = Cache::default_memory_only();
    let request = j(r#"{"model": "test", "prompt": "hello"}"#);
    let response = j(r#"{"text": "world", "usage": {"tokens": 5}}"#);

    assert!(cache.get(&request, None, None).is_none());

    cache.put(&request, &response, None, true);

    let result = cache.get(&request, None, None).unwrap();
    assert_eq!(result.get("text").unwrap().as_str(), Some("world"));
    assert_eq!(result.get("cache_hit").unwrap().as_bool(), Some(true));
    assert!(result.get("usage").is_none());
}

#[test]
fn test_cache_key_deterministic() {
    let mut cache = Cache::default_memory_only();
    let req1 = j(r#"{"a": 1, "b": 2}"#);
    let req2 = j(r#"{"b": 2, "a": 1}"#);
    assert_eq!(cache.cache_key(&req1, None), cache.cache_key(&req2, None));
}

#[test]
fn test_cache_key_ignores_auth() {
    let mut cache = Cache::default_memory_only();
    let req1 = j(r#"{"model": "test", "api_key": "secret1"}"#);
    let req2 = j(r#"{"model": "test", "api_key": "secret2"}"#);
    assert_eq!(cache.cache_key(&req1, None), cache.cache_key(&req2, None));
}

#[test]
fn test_lru_eviction() {
    let config = CacheConfig {
        memory_max_entries: 2,
        ..Default::default()
    };
    let mut cache = Cache::new(config);

    let req1 = j(r#"{"id": 1}"#);
    let req2 = j(r#"{"id": 2}"#);
    let req3 = j(r#"{"id": 3}"#);
    let val = j(r#"{"ok": true}"#);

    cache.put(&req1, &val, None, true);
    cache.put(&req2, &val, None, true);
    assert!(cache.get(&req1, None, None).is_some());
    cache.put(&req3, &val, None, true);
    assert!(cache.get(&req2, None, None).is_none());
    assert!(cache.get(&req1, None, None).is_some());
    assert!(cache.get(&req3, None, None).is_some());
}

#[test]
fn test_disabled_cache_returns_none() {
    let config = CacheConfig {
        enable_memory_cache: false,
        enable_disk_cache: false,
        ..Default::default()
    };
    let mut cache = Cache::new(config);
    let request = j(r#"{"model": "test"}"#);
    let response = j(r#"{"text": "world"}"#);
    cache.put(&request, &response, None, true);
    assert!(cache.get(&request, None, None).is_none());
}

#[test]
fn test_reset_memory_cache() {
    let mut cache = Cache::default_memory_only();
    let request = j(r#"{"model": "test"}"#);
    let response = j(r#"{"text": "world"}"#);
    cache.put(&request, &response, None, true);
    assert!(cache.get(&request, None, None).is_some());
    cache.reset_memory_cache();
    assert!(cache.get(&request, None, None).is_none());
}

#[test]
fn test_disk_cache() {
    let config = CacheConfig {
        enable_memory_cache: false,
        enable_disk_cache: true,
        disk_cache_dir: "dspy_cache_test".to_string(),
        ..Default::default()
    };
    let mut cache = Cache::new(config);
    assert_eq!(cache.dir(), "dspy_cache_test");
    let request = j(r#"{"model": "test", "prompt": "disk"}"#);
    let response = j(r#"{"text": "from_disk"}"#);
    let write = cache.put(&request, &response, None, true).unwrap();
    let key = cache.cache_key(&request, None);
    assert_eq!(write.shard, key[..2]);
    assert_eq!(write.name, format!("{}.json", key));
    assert_eq!(cache.file_needed(&request, None), Some(key));
    assert!(cache.get(&request, None, None).is_none());
    let result = cache.get(&request, None, Some(&write.data)).unwrap();
    assert_eq!(result.get("text").unwrap().as_str(), Some("from_disk"));
    assert_eq!(result.get("cache_hit").unwrap().as_bool(), Some(true));
}

#[test]
fn test_disk_promotes_to_memory() {
    let config = CacheConfig {
        enable_memory_cache: true,
        enable_disk_cache: true,
        disk_cache_dir: "dspy_cache_promote_test".to_string(),
        ..Default::default()
    };
    let mut cache = Cache::new(config);
    let request = j(r#"{"model": "test", "prompt": "promote"}"#);
    let response = j(r#"{"text": "promoted"}"#);
    let write = cache.put(&request, &response, None, false).unwrap();
    let key = cache.cache_key(&request, None);
    assert!(!cache.contains(&key, false));
    assert!(cache.contains(&key, true));
    let result = cache.get(&request, None, Some(&write.data)).unwrap();
    assert_eq!(result.get("text").unwrap().as_str(), Some("promoted"));
    assert!(cache.contains(&key, false));
    assert_eq!(cache.file_needed(&request, None), None);
}

#[test]
fn a_file_that_is_no_json_is_no_hit() {
    let config = CacheConfig { enable_disk_cache: true, ..Default::default() };
    let mut cache = Cache::new(config);
    let request = j(r#"{"model": "test"}"#);
    assert!(cache.get(&request, None, Some("{\"text\":")).is_none());
}

#[test]
fn a_key_is_the_digest_of_the_sorted_request() {
    let cache = Cache::default_memory_only();
    let request = j(r#"{"b": 2, "a": 1}"#);
    assert_eq!(
        cache.cache_key(&request, None),
        "43258cff783fe7036d8a43033f830adfc60ec037382473548ac742b888292777"
    );
}

#[test]
fn named_arguments_are_left_out_of_a_key() {
    let cache = Cache::default_memory_only();
    let a = j(r#"{"model": "m", "seed": 1}"#);
    let b = j(r#"{"model": "m", "seed": 2}"#);
    assert_ne!(cache.cache_key(&a, None), cache.cache_key(&b, None));
    assert_eq!(cache.cache_key(&a, Some(&["seed"])), cache.cache_key(&b, Some(&["seed"])));
}

#[test]
fn a_read_keeps_an_entry() {
    let mut lru = LRUCache::new(2);
    lru.set("a".to_string(), Json::Bool(true));
    lru.set("b".to_string(), Json::Null);
    assert_eq!(lru.get("a").unwrap().as_bool(), Some(true));
    lru.set("c".to_string(), Json::Null);
    assert!(lru.contains("a"));
    assert!(!lru.contains("b"));
    assert!(lru.contains("c"));
    lru.clear();
    assert!(!lru.contains("a"));
}

#[test]
fn the_oldest_files_go_until_there_is_room() {
    let file = |path: &str, size: usize, modified: i128| CacheFileInfo {
        path: path.to_string(),
        size,
        modified,
    };
    let files = vec![file("new", 40, 30), file("old", 40, 10), file("middle", 40, 20)];
    let mut eviction = Eviction::new(files, 30, 80);
    let mut gone: Vec<String> = Vec::new();
    while let Some(path) = eviction.next_file() {
        gone.push(path.clone());
        eviction.report(true);
    }
    assert_eq!(gone, vec!["old", "middle"]);
}

#[test]
fn a_file_that_stays_makes_no_room() {
    let file = |path: &str, modified: i128| CacheFileInfo {
        path: path.to_string(),
        size: 50,
        modified,
    };
    let mut eviction = Eviction::new(vec![file("a", 1), file("b", 2)], 10, 100);
    assert_eq!(eviction.next_file().unwrap(), "a");
    eviction.report(false);
    assert_eq!(eviction.next_file().unwrap(), "b");
    eviction.report(true);
    assert!(eviction.next_file().is_none());
}

#[test]
fn keys_name_files() {
    assert_eq!(key_path("abcdef"), ("ab".to_string(), "abcdef.json".to_string()));
    assert_eq!(key_path("a"), ("a".to_string(), "a.json".to_string()));
    assert!(is_cache_file("abc.json"));
    assert!(!is_cache_file("abc.tmp"));
}
