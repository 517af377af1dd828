use dspy_core::aggregation::{default_normalize, majority, majority_index};
use dspy_core::strmap::StrMap;

type Normalize = fn(&str) -> Option<String>;

fn make_completion(field: &str, value: &str) -> StrMap<String> {
    let mut m = StrMap::new();
    m.insert(field.to_string(), value.to_string());
    m
}

#[test]
fn test_majority_simple() {
    let completions = vec![
        make_completion("answer", "Paris"),
        make_completion("answer", "London"),
        make_completion("answer", "Paris"),
    ];
    let result = majority(&completions, Some("answer"), None::<Normalize>).unwrap();
    assert_eq!(result.get("answer").unwrap(), "Paris");
}

#[test]
fn test_majority_tie_prefers_earlier() {
    let completions = vec![
        make_completion("answer", "A"),
        make_completion("answer", "B"),
    ];
    let result = majority(&completions, Some("answer"), None::<Normalize>).unwrap();
    let ans = result.get("answer").unwrap();
    assert!(ans == "A" || ans == "B");
}

#[test]
fn test_majority_normalization() {
    let completions = vec![
        make_completion("answer", "  Paris  "),
        make_completion("answer", "paris"),
        make_completion("answer", "London"),
    ];
    let result = majority(&completions, Some("answer"), None::<Normalize>).unwrap();
    let ans = result.get("answer").unwrap().to_lowercase().trim().to_string();
    assert_eq!(ans, "paris");
}

#[test]
fn test_majority_empty() {
    let result = majority(&Vec::new(), None, None::<Normalize>);
    assert!(result.is_none());
}

#[test]
fn test_majority_custom_normalize() {
    let no_norm = |s: &str| Some(s.to_string());
    let completions = vec![
        make_completion("answer", "Paris"),
        make_completion("answer", "paris"),
        make_completion("answer", "paris"),
    ];
    let result = majority(&completions, Some("answer"), Some(no_norm)).unwrap();
    assert_eq!(result.get("answer").unwrap(), "paris");
}

#[test]
fn the_earliest_of_equals_wins() {
    let norms = vec![
        None,
        Some("b".to_string()),
        Some("a".to_string()),
        Some("a".to_string()),
        Some("b".to_string()),
    ];
    assert_eq!(majority_index(&norms), 1);
}

#[test]
fn nothing_to_vote_on_gives_the_first() {
    assert_eq!(majority_index(&vec![None, None]), 0);
}

#[test]
fn blank_texts_have_no_normal_form() {
    assert_eq!(default_normalize("  \t"), None);
    assert_eq!(default_normalize("  The Answer "), Some("the answer".to_string()));
}

#[test]
fn the_last_field_is_voted_on_where_none_is_named() {
    let mut first: StrMap<String> = StrMap::new();
    first.insert("x".to_string(), "1".to_string());
    let mut second: StrMap<String> = StrMap::new();
    second.insert("x".to_string(), "2".to_string());
    let mut third: StrMap<String> = StrMap::new();
    third.insert("x".to_string(), "2".to_string());
    let won = majority(&vec![first, second, third], None, None::<Normalize>).unwrap();
    assert_eq!(won.get("x").unwrap(), "2");
}

#[test]
fn a_normal_form_is_its_own() {
    for s in ["The  Quick,brown (fox)!", " 3.14 ", "A", "x\ty\nz"] {
        let t = default_normalize(s).unwrap();
        assert_eq!(default_normalize(&t), Some(t.clone()));
        assert!(!t.contains("  ") && t.trim() == t);
        assert!(t.chars().all(|c| c == ' ' || c.is_alphanumeric()));
    }
    assert_eq!(default_normalize("?!"), None);
}

#[test]
fn a_letter_or_a_digit_is_enough() {
    for c in (0u8..128).map(char::from) {
        let s = format!("- {c} ?");
        assert_eq!(default_normalize(&s).is_some(), c.is_ascii_alphanumeric(), "{s:?}");
    }
}
