use dspy_core::dataset::{seeded_order, Dataset, DatasetConfig};
use dspy_core::strmap::StrMap;

fn make_data(n: usize) -> Vec<StrMap<String>> {
    (0..n)
        .map(|i| {
            let mut m = StrMap::new();
            m.insert("question".to_string(), format!("Q{i}"));
            m.insert("answer".to_string(), format!("A{i}"));
            m
        })
        .collect()
}

#[test]
fn test_dataset_basic() {
    let ds = Dataset::new(
        "test",
        DatasetConfig::default(),
        make_data(10),
        make_data(5),
        make_data(3),
    );

    assert_eq!(ds.train().len(), 10);
    assert_eq!(ds.dev().len(), 5);
    assert_eq!(ds.test().len(), 3);
}

#[test]
fn test_dataset_size_limit() {
    let config = DatasetConfig {
        train_size: Some(3),
        ..Default::default()
    };
    let ds = Dataset::new(
        "test",
        config,
        make_data(10),
        Vec::new(),
        Vec::new(),
    );

    assert_eq!(ds.train().len(), 3);
}

#[test]
fn test_dataset_shuffle_deterministic() {
    let config = DatasetConfig {
        train_seed: 42,
        ..Default::default()
    };
    let ds1 = Dataset::new(
        "test",
        config,
        make_data(10),
        Vec::new(),
        Vec::new(),
    );

    let config2 = DatasetConfig {
        train_seed: 42,
        ..Default::default()
    };
    let ds2 = Dataset::new(
        "test",
        config2,
        make_data(10),
        Vec::new(),
        Vec::new(),
    );

    let t1 = ds1.train();
    let t2 = ds2.train();

    for (a, b) in t1.iter().zip(t2.iter()) {
        assert_eq!(
            a.get("question").map(|v| v.as_str()),
            b.get("question").map(|v| v.as_str())
        );
    }
}

#[test]
fn test_prepare_by_seed() {
    let mut ds = Dataset::new(
        "test",
        DatasetConfig {
            train_size: Some(5),
            dev_size: Some(90),
            eval_seed: 42,
            ..Default::default()
        },
        make_data(50),
        make_data(100),
        Vec::new(),
    );

    let (train_sets, eval_sets) = ds.prepare_by_seed(
        Some(&[1, 2, 3]),
        5,
        90,
        true,
        42,
    );

    assert_eq!(train_sets.len(), 3);
    assert_eq!(eval_sets.len(), 3);
    for ts in &train_sets {
        assert_eq!(ts.len(), 5);
    }
    for es in &eval_sets {
        assert_eq!(es.len(), 30);
    }
    let t1: Vec<_> = train_sets[0].iter().map(|e| e.get_str("question").unwrap_or("").to_string()).collect();
    let t2: Vec<_> = train_sets[1].iter().map(|e| e.get_str("question").unwrap_or("").to_string()).collect();
    assert_ne!(t1, t2, "Different seeds should produce different train sets");
}

#[test]
fn test_prepare_by_seed_no_divide() {
    let mut ds = Dataset::new(
        "test",
        DatasetConfig::default(),
        make_data(50),
        make_data(100),
        Vec::new(),
    );

    let (_, eval_sets) = ds.prepare_by_seed(
        Some(&[1, 2]),
        5,
        50,
        false,
        42,
    );
    for es in &eval_sets {
        assert_eq!(es.len(), 50);
    }
}

#[test]
fn test_dataset_input_keys() {
    let config = DatasetConfig {
        input_keys: vec!["question".to_string()],
        ..Default::default()
    };
    let ds = Dataset::new(
        "test",
        config,
        make_data(3),
        Vec::new(),
        Vec::new(),
    );

    let examples = ds.train();
    assert_eq!(examples.len(), 3);
}

#[test]
fn an_order_holds_each_place_once() {
    let mut order = seeded_order(20, 7);
    assert_ne!(order, (0..20).collect::<Vec<usize>>());
    order.sort();
    assert_eq!(order, (0..20).collect::<Vec<usize>>());
    assert!(seeded_order(0, 7).is_empty());
}

#[test]
fn a_size_of_zero_leaves_nothing() {
    let config = DatasetConfig { dev_size: Some(0), ..Default::default() };
    let ds = Dataset::new("test", config, Vec::new(), make_data(4), make_data(2));
    assert!(ds.dev().is_empty());
    assert_eq!(ds.test().len(), 2);
}

#[test]
fn input_keys_part_inputs_from_labels() {
    let config =
        DatasetConfig { input_keys: vec!["question".to_string()], ..Default::default() };
    let ds = Dataset::new("test", config, make_data(3), Vec::new(), Vec::new());
    for example in ds.train() {
        assert!(example.inputs().has("question"));
        assert!(!example.inputs().has("answer"));
        assert!(example.labels().has("answer"));
    }
}
