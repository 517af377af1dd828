use dspy_core::adapter::ChatAdapter;
use dspy_core::adapter_types::{
    filter_code, split_message_content_for_custom_types, MessageContent, TypedMessage,
    CUSTOM_TYPE_END, CUSTOM_TYPE_START,
};
use dspy_core::aggregation::default_normalize;
use dspy_core::code_act;
use dspy_core::dataset::seeded_order;
use dspy_core::example::Example;
use dspy_core::json_adapter::extract_json_object;
use dspy_core::prediction::Prediction;
use dspy_core::program_of_thought::ProgramOfThought;
use dspy_core::rlm::strip_code_fences;
use dspy_core::signature::Signature;
use dspy_core::streaming::{could_form_end, AdapterType};
use dspy_core::xml_adapter::XMLAdapter;
use regex::Regex;

/// All texts of up to `n` of the tokens, and many longer ones.
fn samples(tokens: &[&str], n: usize, longer: usize) -> Vec<String> {
    let mut all = vec![String::new()];
    let mut last = all.clone();
    for _ in 0..n {
        let mut next = Vec::new();
        for s in &last {
            for t in tokens {
                next.push(format!("{s}{t}"));
            }
        }
        all.extend(next.iter().cloned());
        last = next;
    }
    let mut state: u64 = 7;
    for _ in 0..longer {
        let mut s = String::new();
        for _ in 0..12 {
            state = state.wrapping_mul(6364136223846793005).wrapping_add(1442695040888963407);
            s.push_str(tokens[(state >> 33) as usize % tokens.len()]);
        }
        all.push(s);
    }
    all
}

const CODE: [&str; 10] = ["```", "`", "python", "py", " ", "\n", "x", "= ", "\\n", "---"];

fn code_of(text: &str) -> Prediction {
    Prediction::from_example(Example::new().field("generated_code", text))
}

fn raw_code(full: &str) -> &str {
    full.split("---").next().unwrap().split("\n\n\n").next().unwrap()
}

#[test]
fn code_of_an_agent_is_what_the_pattern_finds() {
    let fence = Regex::new(r"```(?:python|py)?[ \n](.*?)[ \n]```?").unwrap();
    for s in samples(&CODE, 4, 4000) {
        let raw = raw_code(&s);
        let block = fence.captures(raw).map(|c| c.get(1).unwrap().as_str()).unwrap_or(raw);
        let block = block.replace("\\n", "\n");
        let (code, error) = code_act::parse_code(&code_of(&s));
        if block.trim().is_empty() {
            assert_eq!((code.as_str(), error.is_some()), (raw, true), "{s:?}");
        } else {
            assert_eq!((code, error), (block, None), "{s:?}");
        }
    }
}

#[test]
fn code_of_a_program_is_what_the_pattern_finds() {
    let fence = Regex::new(r"```(?:python|py)?[ \n](.*?)[ \n]```?").unwrap();
    let assign = Regex::new(r"^(\w+)\s*=").unwrap();
    for s in samples(&CODE, 3, 1000) {
        let raw = raw_code(&s);
        let block = fence.captures(raw).map(|c| c.get(1).unwrap().as_str()).unwrap_or(raw);
        let block = block.replace("\\n", "\n");
        let (code, error) = ProgramOfThought::parse_code(&code_of(&s));
        if block.trim().is_empty() {
            assert_eq!(code, raw, "{s:?}");
            assert_eq!(error.as_deref(), Some("Error: Empty code after parsing."), "{s:?}");
        } else if !block.contains('\n') && block.matches('=').count() > 1 {
            assert_eq!(code, raw, "{s:?}");
            assert_eq!(error.as_deref(), Some("Error: Code format is not correct."), "{s:?}");
        } else {
            let lines: Vec<&str> = block.lines().collect();
            let last = lines.last().unwrap_or(&"").trim();
            let mut want = block.clone();
            if lines.len() > 1 {
                if let Some(c) = assign.captures(last) {
                    want = format!("{}\n{}", block, &c[1]);
                }
            }
            assert_eq!((code, error), (want, None), "{s:?}");
        }
    }
}

#[test]
fn fences_are_stripped_as_by_the_pattern() {
    let fence = Regex::new(r"^```(?:python|py)?\s*\n(.*)\n```\s*$").unwrap();
    for s in samples(&CODE, 4, 4000) {
        let code = s.trim();
        let want = fence.captures(code).map(|c| c.get(1).unwrap().as_str()).unwrap_or(code);
        assert_eq!(strip_code_fences(&s), want, "{s:?}");
    }
}

#[test]
fn code_is_filtered_as_by_the_patterns() {
    let first = Regex::new(r"```(?:[^\n]*)\n([\s\S]*?)```").unwrap();
    let second = Regex::new(r"```([\s\S]*?)```").unwrap();
    for s in samples(&CODE, 4, 4000) {
        let want = match first.captures(&s) {
            Some(c) => c[1].trim().to_string(),
            None => match second.captures(&s) {
                Some(c) => c[1].trim().to_string(),
                None => s.clone(),
            },
        };
        assert_eq!(filter_code(&s), want, "{s:?}");
    }
}

#[test]
fn tags_are_found_as_by_the_pattern() {
    let open = Regex::new(r"<(\w+)>").unwrap();
    let adapter = XMLAdapter::new();
    let tokens = ["<a>", "</a>", "<b>", "</b>", "<", ">", "/", "a", " ", "\u{e9}"];
    for s in samples(&tokens, 3, 300) {
        let mut want: Vec<(String, String)> = Vec::new();
        for c in open.captures_iter(&s) {
            let name = c[1].to_string();
            if want.iter().any(|(n, _)| *n == name) {
                continue;
            }
            let start = c.get(0).unwrap().end();
            if let Some(at) = s[start..].find(&format!("</{name}>")) {
                want.push((name, s[start..start + at].trim().to_string()));
            }
        }
        assert_eq!(adapter.extract_xml_fields(&s), want, "{s:?}");
    }
}

#[test]
fn normal_forms_are_those_of_the_standard_library() {
    let tokens = ["A", "b", " ", "\t", "-", "\u{c9}", "\u{2028}", "7", "\u{130}"];
    for s in samples(&tokens, 4, 4000) {
        let want = s
            .to_lowercase()
            .chars()
            .filter(|c| c.is_alphanumeric() || c.is_whitespace())
            .collect::<String>()
            .split_whitespace()
            .collect::<Vec<_>>()
            .join(" ");
        let want = if want.is_empty() { None } else { Some(want) };
        assert_eq!(default_normalize(&s), want, "{s:?}");
    }
}

fn shuffled(n: usize, seed: u64) -> Vec<usize> {
    let mut state: u64 = seed;
    let mut data: Vec<usize> = (0..n).collect();
    for i in (1..n).rev() {
        state = state.wrapping_mul(1664525).wrapping_add(1013904223) & 0xFFFFFFFF;
        let fraction = state as f64 / 0x100000000_u64 as f64;
        let j = (fraction * (i + 1) as f64) as usize;
        data.swap(i, j);
    }
    data
}

#[test]
fn orders_are_those_of_the_generator() {
    for n in 0..60 {
        for seed in [0, 1, 42, 0xffff_ffff, 0x1_0000_0001, u64::MAX] {
            assert_eq!(seeded_order(n, seed), shuffled(n, seed));
        }
    }
    assert_eq!(seeded_order(5000, 3), shuffled(5000, 3));
}

#[test]
fn ends_may_be_cut_anywhere() {
    assert!(could_form_end("text [[", AdapterType::ChatAdapter));
    assert!(!could_form_end("text", AdapterType::ChatAdapter));
}

#[test]
fn replies_are_cut_at_markers() {
    let sig = Signature::from_string("q -> a, b").unwrap();
    let adapter = ChatAdapter::new();
    let tokens = ["[[ ## a ## ]]", "[[ ## b ## ]]", "[[ ## ", " ## ]]", "x", "\n", " "];
    for s in samples(&tokens, 4, 4000) {
        let parsed = adapter.parse_output(&s, &sig, &Vec::new()).unwrap();
        let mut want: Vec<(&str, String)> = Vec::new();
        for name in ["a", "b"] {
            let marker = format!("[[ ## {name} ## ]]");
            if let Some(at) = s.find(&marker) {
                let rest = &s[at + marker.len()..];
                let end = match rest.find("[[ ## ") {
                    Some(p) if rest[p..].contains(" ## ]]") => p,
                    _ => rest.len(),
                };
                want.push((name, rest[..end].trim().to_string()));
            }
        }
        if want.is_empty() {
            want.push(("a", s.trim().to_string()));
        }
        assert_eq!(parsed.len(), want.len(), "{s:?}");
        for (name, text) in want {
            assert_eq!(parsed.get(name).unwrap().as_str(), Some(text.as_str()), "{s:?}");
        }
    }
}

#[test]
fn custom_types_are_found_as_by_the_pattern() {
    let pattern = format!(
        "{}([\\s\\S]*?){}",
        regex::escape(CUSTOM_TYPE_START),
        regex::escape(CUSTOM_TYPE_END)
    );
    let re = Regex::new(&pattern).unwrap();
    let tokens =
        [CUSTOM_TYPE_START, CUSTOM_TYPE_END, "[{\"k\":1}]", "[1]", "{}", " ", "text", "<<", "\n"];
    let plain = |t: &str| {
        serde_json::to_string(&std::collections::BTreeMap::from([("text", t), ("type", "text")]))
            .unwrap()
    };
    for s in samples(&tokens, 4, 2000) {
        let mut want: Vec<String> = Vec::new();
        let mut end = 0;
        let mut found = false;
        for c in re.captures_iter(&s) {
            found = true;
            let whole = c.get(0).unwrap();
            if whole.start() > end {
                want.push(plain(&s[end..whole.start()]));
            }
            let inner = c[1].trim();
            match serde_json::from_str::<serde_json::Value>(inner) {
                Ok(serde_json::Value::Array(items)) => {
                    want.extend(items.iter().filter(|i| i.is_object()).map(|i| i.to_string()))
                }
                _ => want.push(plain(inner)),
            }
            end = whole.end();
        }
        if found && end < s.len() {
            want.push(plain(&s[end..]));
        }
        let content = MessageContent::Text(s.clone());
        let mut messages = vec![TypedMessage { role: "user".to_string(), content }];
        split_message_content_for_custom_types(&mut messages);
        match &messages[0].content {
            MessageContent::Text(t) => assert!(!found && *t == s, "{s:?}"),
            MessageContent::Blocks(blocks) => {
                assert!(found, "{s:?}");
                let got: Vec<String> = blocks
                    .iter()
                    .map(|b| dspy_core::json::Json::Object(dspy_core::json::copy_object(b)).to_text())
                    .collect();
                assert_eq!(got, want, "{s:?}");
            }
        }
    }
}

#[test]
fn objects_end_where_their_braces_do() {
    for s in samples(&["{", "}", "x", "\u{e9}"], 6, 500) {
        let want = s.find('{').and_then(|start| {
            let mut depth = 0;
            for (i, c) in s[start..].char_indices() {
                depth += match c {
                    '{' => 1,
                    '}' => -1,
                    _ => 0,
                };
                if depth == 0 {
                    return Some(s[start..start + i + 1].to_string());
                }
            }
            None
        });
        assert_eq!(extract_json_object(&s), want, "{s:?}");
    }
}
