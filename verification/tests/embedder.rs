use dspy_core::cache::{Cache, CacheConfig};
use dspy_core::embedder::{read_embeddings, single_embedding, Embedder};
use dspy_core::json::Json;
use dspy_core::settings::{resolve_cache, CacheChoice, CacheSetting};
use dspy_core::strmap::StrMap;

/// A model whose vectors repeat the length of the text.
struct MockEmbedder {
    dim: usize,
    call_count: u32,
}

impl MockEmbedder {
    fn new(dim: usize) -> Self {
        Self { dim, call_count: 0 }
    }

    fn embed(&mut self, texts: &[String], kwargs: Option<&StrMap<Json>>) -> Vec<Json> {
        self.call_count += 1;
        let dim = self.dim + if kwargs.is_some() { 1 } else { 0 };
        texts
            .iter()
            .map(|t| {
                let number = format!("{}.0", t.len());
                let items: Vec<String> = (0..dim).map(|_| number.clone()).collect();
                Json::parse(&format!("[{}]", items.join(","))).unwrap()
            })
            .collect()
    }
}

fn call(
    embedder: &Embedder,
    model: &mut MockEmbedder,
    cache: Option<&mut Cache>,
    inputs: &[String],
    batch_size: Option<usize>,
    kwargs: Option<StrMap<Json>>,
) -> Vec<Json> {
    let mut cache = cache;
    let mut run = embedder.begin(inputs.to_vec(), batch_size, kwargs);
    while let Some(batch) = run.next_batch() {
        if let Some(c) = cache.as_deref_mut() {
            if run.try_cache(&embedder.model_id, &batch, c, None) {
                continue;
            }
        }
        let vectors = model.embed(&batch, run.model_kwargs());
        if let Some(c) = cache.as_deref_mut() {
            run.store(&embedder.model_id, &batch, &vectors, c);
        }
        run.on_embeddings(vectors);
    }
    run.finish()
}

fn words(v: &[&str]) -> Vec<String> {
    v.iter().map(|s| s.to_string()).collect()
}

fn entry(v: &Json, i: usize) -> f64 {
    v.as_array().unwrap()[i].to_text().parse().unwrap()
}

fn width(v: &Json) -> usize {
    v.as_array().unwrap().len()
}

#[test]
fn test_embedder_basic() {
    let embedder = Embedder::with_defaults("mock_embedder");
    let mut model = MockEmbedder::new(3);
    let result = call(&embedder, &mut model, None, &words(&["hello", "world"]), None, None);
    assert_eq!(result.len(), 2);
    assert_eq!(width(&result[0]), 3);
    assert_eq!(entry(&result[0], 0), 5.0);
}

#[test]
fn test_embedder_single() {
    let embedder = Embedder::with_defaults("mock_embedder");
    let mut model = MockEmbedder::new(4);
    let found = call(&embedder, &mut model, None, &words(&["test"]), None, None);
    let result = single_embedding(found).unwrap();
    assert_eq!(width(&result), 4);
    assert_eq!(entry(&result, 0), 4.0);
}

#[test]
fn test_embedder_batching() {
    let embedder = Embedder::new("mock_embedder", 2, true);
    let mut model = MockEmbedder::new(2);
    let inputs: Vec<String> = (0..5).map(|i| format!("text{i}")).collect();
    let result = call(&embedder, &mut model, None, &inputs, None, None);
    assert_eq!(result.len(), 5);
    assert_eq!(model.call_count, 3);
}

#[test]
fn test_embedder_empty() {
    let embedder = Embedder::with_defaults("mock_embedder");
    let mut model = MockEmbedder::new(3);
    let result = call(&embedder, &mut model, None, &[], None, None);
    assert!(result.is_empty());
    assert!(single_embedding(result).is_err());
}

#[test]
fn test_embedder_kwargs_passthrough() {
    let embedder = Embedder::with_defaults("mock_embedder");
    let mut model = MockEmbedder::new(1);
    let result = call(&embedder, &mut model, None, &words(&["test"]), None, None);
    assert_eq!(width(&result[0]), 1);
    let mut kw = StrMap::new();
    kw.insert("model".to_string(), Json::text("test-model"));
    let result = call(&embedder, &mut model, None, &words(&["test"]), None, Some(kw));
    assert_eq!(width(&result[0]), 2);
}

#[test]
fn test_embedder_batch_size_override() {
    let embedder = Embedder::new("mock_embedder", 100, true);
    let mut model = MockEmbedder::new(1);
    let inputs: Vec<String> = (0..5).map(|i| format!("text{i}")).collect();
    call(&embedder, &mut model, None, &inputs, Some(2), None);
    assert_eq!(model.call_count, 3);
}

#[test]
fn test_embedder_caching_hit() {
    let embedder = Embedder::new("mock_embedder", 200, true);
    let mut model = MockEmbedder::new(3);
    let mut cache = Cache::default_memory_only();
    let inputs = words(&["hello", "world"]);
    assert!(embedder.uses_cache(None));
    let r1 = call(&embedder, &mut model, Some(&mut cache), &inputs, None, None);
    assert_eq!(r1.len(), 2);
    assert_eq!(model.call_count, 1);
    let r2 = call(&embedder, &mut model, Some(&mut cache), &inputs, None, None);
    assert_eq!(r2.len(), 2);
    assert_eq!(entry(&r2[0], 0), 5.0);
    assert_eq!(model.call_count, 1);
}

#[test]
fn test_embedder_caching_disabled() {
    let embedder = Embedder::new("mock_embedder", 200, false);
    let mut model = MockEmbedder::new(3);
    assert!(!embedder.caching());
    assert!(!embedder.uses_cache(None));
    call(&embedder, &mut model, None, &words(&["hello"]), None, None);
    call(&embedder, &mut model, None, &words(&["hello"]), None, None);
    assert_eq!(model.call_count, 2);
}

#[test]
fn test_embedder_caching_per_call_override() {
    let embedder = Embedder::new("mock_embedder", 200, true);
    let mut model = MockEmbedder::new(3);
    let mut cache = Cache::default_memory_only();
    assert!(embedder.uses_cache(Some(true)));
    call(&embedder, &mut model, Some(&mut cache), &words(&["hello"]), None, None);
    assert_eq!(model.call_count, 1);
    assert!(!embedder.uses_cache(Some(false)));
    call(&embedder, &mut model, None, &words(&["hello"]), None, None);
    assert_eq!(model.call_count, 2);
}

#[test]
fn test_embedder_caching_settings_disabled() {
    let embedder = Embedder::new("mock_embedder", 200, true);
    let mut model = MockEmbedder::new(3);
    let setting: Option<CacheSetting<&str>> = Some(CacheSetting::Disabled);
    assert!(matches!(resolve_cache(embedder.uses_cache(None), &setting), CacheChoice::Off));
    call(&embedder, &mut model, None, &words(&["hello"]), None, None);
    call(&embedder, &mut model, None, &words(&["hello"]), None, None);
    assert_eq!(model.call_count, 2);
}

#[test]
fn arguments_of_a_call_go_over_the_defaults() {
    let mut defaults = StrMap::new();
    defaults.insert("a".to_string(), Json::Unsigned(1));
    defaults.insert("b".to_string(), Json::Unsigned(2));
    let embedder = Embedder::with_kwargs("m", 10, true, defaults);
    let mut kw = StrMap::new();
    kw.insert("b".to_string(), Json::Unsigned(3));
    let merged = embedder.merge_kwargs(Some(kw));
    assert_eq!(merged.get("a").unwrap().as_u64(), Some(1));
    assert_eq!(merged.get("b").unwrap().as_u64(), Some(3));
}

#[test]
fn only_lists_of_numbers_are_embeddings() {
    assert!(read_embeddings(Json::parse("[[1.5, 2]]").unwrap()).is_some());
    assert!(read_embeddings(Json::parse("[[\"x\"]]").unwrap()).is_none());
    assert!(read_embeddings(Json::parse("{}").unwrap()).is_none());
}

#[test]
fn no_texts_need_no_batches() {
    let embedder = Embedder::new("m", 0, true);
    let run = embedder.begin(Vec::new(), None, None);
    assert!(run.next_batch().is_none());
    assert!(run.finish().is_empty());
}

#[test]
fn embeddings_are_found_in_their_file() {
    let config = CacheConfig {
        enable_memory_cache: false,
        enable_disk_cache: true,
        ..Default::default()
    };
    let mut cache = Cache::new(config);
    let embedder = Embedder::with_defaults("m");
    let mut run = embedder.begin(words(&["hello"]), None, None);
    let batch = run.next_batch().unwrap();
    let found = MockEmbedder::new(2).embed(&batch, None);
    let write = run.store("m", &batch, &found, &mut cache).unwrap();
    assert!(!run.try_cache("m", &batch, &mut cache, None));
    assert!(run.try_cache("m", &batch, &mut cache, Some(&write.data)));
    assert_eq!(entry(&run.finish()[0], 1), 5.0);
}
