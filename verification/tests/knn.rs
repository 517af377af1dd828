use dspy_core::example::Example;
use dspy_core::knn::{example_to_text, top_k, KNN};

fn embed(text: &str) -> Vec<f32> {
    if text.contains("Paris") {
        vec![1.0, 0.0, 0.0]
    } else if text.contains("Berlin") {
        vec![0.0, 1.0, 0.0]
    } else if text.contains("London") {
        vec![0.0, 0.0, 1.0]
    } else if text.contains("hello") || text.contains("art") {
        vec![0.5, 0.5, 0.0]
    } else if text.contains("world") || text.contains("zoo") {
        vec![0.0, 0.5, 0.5]
    } else {
        vec![0.33, 0.33, 0.34]
    }
}

fn length_and_first(text: &str) -> Vec<f32> {
    let first = text.chars().next().unwrap_or('a') as u32 as f32;
    vec![first, text.len() as f32]
}

fn normalize(v: &[f32]) -> Vec<f32> {
    let norm = v.iter().map(|x| x * x).sum::<f32>().sqrt();
    v.iter().map(|x| x / norm).collect()
}

/// A key that orders floating-point numbers as they are.
fn key(x: f64) -> i64 {
    let bits = x.to_bits() as i64;
    if bits >= 0 {
        bits
    } else {
        i64::MIN.wrapping_sub(bits)
    }
}

fn query(knn: &KNN, fields: &[(&str, &str)], embedder: fn(&str) -> Vec<f32>) -> Vec<Example> {
    if !knn.needs_query() {
        return Vec::new();
    }
    let q = normalize(&embedder(&knn.query_text(fields)));
    let scores: Vec<i64> = knn
        .trainset_texts()
        .iter()
        .map(|t| {
            let v = normalize(&embedder(t));
            key(v.iter().zip(q.iter()).map(|(a, b)| a * b).sum::<f32>() as f64)
        })
        .collect();
    knn.nearest(&scores)
}

#[test]
fn test_knn_basic() {
    let trainset = vec![
        Example::new().field("question", "What is Paris?").with_inputs(&["question"]),
        Example::new().field("question", "What is Berlin?").with_inputs(&["question"]),
        Example::new().field("question", "What is London?").with_inputs(&["question"]),
    ];
    let knn = KNN::new(2, trainset);
    let results = query(&knn, &[("question", "What is Paris?")], embed);
    assert_eq!(results.len(), 2);
    assert_eq!(results[0].get_str("question").unwrap(), "What is Paris?");
}

#[test]
fn test_knn_empty_trainset() {
    let knn = KNN::new(3, vec![]);
    let results = query(&knn, &[("question", "anything")], embed);
    assert!(results.is_empty());
}

#[test]
fn test_knn_k_larger_than_trainset() {
    let trainset = vec![
        Example::new().field("q", "hello").with_inputs(&["q"]),
        Example::new().field("q", "world").with_inputs(&["q"]),
    ];
    let knn = KNN::new(10, trainset);
    let results = query(&knn, &[("q", "hello")], embed);
    assert_eq!(results.len(), 2);
}

#[test]
fn test_knn_zero_k() {
    let trainset = vec![Example::new().field("q", "hello").with_inputs(&["q"])];
    let knn = KNN::new(0, trainset);
    let results = query(&knn, &[("q", "hello")], embed);
    assert!(results.is_empty());
}

#[test]
fn test_knn_similarity_ordering() {
    let trainset = vec![
        Example::new().field("word", "apple").with_inputs(&["word"]),
        Example::new().field("word", "ant").with_inputs(&["word"]),
        Example::new().field("word", "zoo").with_inputs(&["word"]),
    ];
    let knn = KNN::new(3, trainset);
    let results = query(&knn, &[("word", "art")], length_and_first);
    assert_eq!(results.len(), 3);
}

#[test]
fn the_highest_scores_come_first() {
    assert_eq!(top_k(&vec![3, 9, 5, 9], 3), vec![1, 3, 2]);
    assert_eq!(top_k(&vec![3, 9], 0), Vec::<usize>::new());
    assert_eq!(top_k(&vec![-1, -2], 5), vec![0, 1]);
}

#[test]
fn only_inputs_make_the_text() {
    let ex = Example::new().field("q", "hello").field("a", "world").with_inputs(&["q"]);
    assert!(example_to_text(&ex).contains("hello"));
    assert!(!example_to_text(&ex).contains("world"));
    let all = Example::new().field("q", "hello").field("a", "world");
    assert_eq!(example_to_text(&all), "q: hello | a: world");
    assert_eq!(example_to_text(&all.with_inputs(&["other"])), "");
}

#[test]
fn no_position_is_chosen_twice() {
    let scores = vec![4, 4, 7, 4, 1, 7];
    let chosen = top_k(&scores, 5);
    assert_eq!(chosen, vec![2, 5, 0, 1, 3]);
    assert_eq!(top_k(&scores, 9).len(), scores.len());
    assert_eq!(top_k(&Vec::new(), 3), Vec::<usize>::new());
}
