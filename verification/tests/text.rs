use dspy_core::identifier::{long_identifier, random_long_identifier, short_identifier};
use dspy_core::json::{Json, JsonFloat};
use dspy_core::signature::Signature;
use dspy_core::strmap::StrMap;
use dspy_core::text::{
    before, byte_len, byte_prefix, chars_of, dec, dec_signed, find_text, is_whitespace, join, lines,
    parse_size, replace, sort_texts, split, text_less, trim, trim_end, trim_start,
};
use dspy_core::unicode::{lower_char, same_but_case};

fn words(v: &[&str]) -> Vec<String> {
    v.iter().map(|s| s.to_string()).collect()
}

#[test]
fn white_space_is_that_of_the_standard_library() {
    for n in 0..=0x10ffff_u32 {
        if let Some(c) = char::from_u32(n) {
            assert_eq!(is_whitespace(c), c.is_whitespace(), "{n:x}");
        }
    }
}

#[test]
fn texts_are_handled_as_by_the_standard_library() {
    let samples = [
        "", " ", "a", " a b ", "\ta\r\nb\n", "a\n\nb\r", "x,y,,z", ",", "\u{2003}\u{e9}t\u{e9}\u{a0}",
        "aaa", "a->b->c", "\r\n", "abcabc",
    ];
    for s in samples {
        assert_eq!(trim(s), s.trim());
        assert_eq!(trim_start(s), s.trim_start());
        assert_eq!(trim_end(s), s.trim_end());
        assert_eq!(lines(s), s.lines().collect::<Vec<&str>>());
        assert_eq!(split(s, ','), s.split(',').collect::<Vec<&str>>());
        assert_eq!(replace(s, "a", "bb"), s.replace("a", "bb"));
        assert_eq!(replace(s, "aa", "c"), s.replace("aa", "c"));
        assert_eq!(byte_len(s), s.len());
        assert_eq!(chars_of(s), s.chars().collect::<Vec<char>>());
        assert_eq!(before(s, "->"), s.split("->").next().unwrap());
        for t in samples {
            assert_eq!(text_less(s, t), s < t, "{s} {t}");
            assert_eq!(same_but_case(s, t), s.eq_ignore_ascii_case(t));
        }
    }
    assert_eq!(find_text("abcabc", "ca"), Some(2));
    assert_eq!(find_text("abc", "x"), None);
    assert_eq!(byte_prefix("\u{e9}\u{e9}", 2), "\u{e9}");
}

#[test]
fn numbers_are_read_back() {
    for n in [0, 7, 10, 123456789, u64::MAX] {
        assert_eq!(dec(n), n.to_string());
        assert_eq!(parse_size(&dec(n)), dec(n).parse::<usize>().ok());
    }
    for n in [i64::MIN, -1, 0, 5, i64::MAX] {
        assert_eq!(dec_signed(n), n.to_string());
    }
    for s in ["", "+", "+5", "-5", "007", "1a", "99999999999999999999999"] {
        assert_eq!(parse_size(s), s.parse::<usize>().ok(), "{s}");
    }
}

#[test]
fn lists_are_joined_and_sorted() {
    assert_eq!(join(&words(&["a", "b", "c"]), ", "), "a, b, c");
    assert_eq!(join(&words(&[]), ", "), "");
    assert_eq!(sort_texts(&words(&["b", "a", "ab", "B"])), words(&["B", "a", "ab", "b"]));
}

#[test]
fn case_is_that_of_letters() {
    assert_eq!(lower_char('Q'), 'q');
    assert_eq!(lower_char('\u{c9}'), '\u{c9}');
}

#[test]
fn identifiers_are_hexadecimal() {
    assert_eq!(short_identifier(0xabc), "0000000000000abc");
    assert_eq!(long_identifier(u128::MAX), "f".repeat(32));
    for n in [0_u128, 1, 0x1234_5678_9abc_def0, u128::MAX / 3] {
        assert_eq!(long_identifier(n), format!("{n:032x}"));
    }
    let id = random_long_identifier();
    assert_eq!(id.len(), 32);
    assert!(u128::from_str_radix(&id, 16).is_ok());
}

#[test]
fn maps_keep_the_order_of_their_keys() {
    let mut m: StrMap<u32> = StrMap::new();
    assert_eq!(m.replace("b".to_string(), 1), None);
    m.insert("a".to_string(), 2);
    assert_eq!(m.replace("b".to_string(), 3), Some(1));
    assert_eq!(m.key_at(0), "b");
    assert_eq!(*m.value_at(0), 3);
    assert_eq!(m.remove("b"), Some(3));
    assert_eq!(m.remove("b"), None);
    assert_eq!(m.len(), 1);
}

#[test]
fn json_is_read_and_printed() {
    let text = r#"{"a":[1,-2,2.5,"x\n",null,true],"b":{}}"#;
    let j = Json::parse(text).unwrap();
    assert_eq!(j.to_text(), text);
    assert_eq!(j.copy().to_text_pretty(), serde_json_pretty(text));
    assert!(Json::parse("{").is_err());
    assert_eq!(Json::parse("18446744073709551615").unwrap().as_u64(), Some(u64::MAX));
    assert_eq!(Json::parse("18446744073709551615").unwrap().as_i64(), None);
    assert_eq!(JsonFloat::parse("1.5").unwrap().copy().as_text(), "1.5");
}

fn serde_json_pretty(text: &str) -> String {
    let value: serde_json::Value = serde_json::from_str(text).unwrap();
    serde_json::to_string_pretty(&value).unwrap()
}

#[test]
fn names_are_words() {
    let sig = Signature::from_string("\u{e9}t\u{e9} -> ok").unwrap();
    let reply = "[[ ## ok ## ]]\nfine\n\n[[ ## completed ## ]]";
    let adapter = dspy_core::adapter::ChatAdapter::new();
    let parsed = adapter.parse_output(reply, &sig, &Vec::new()).unwrap();
    assert_eq!(parsed.get("ok").unwrap().as_str(), Some("fine"));
}
