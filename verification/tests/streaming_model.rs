use dspy_core::streaming::{AdapterType, StreamListener};
use regex::Regex;

/// A listener written with patterns, as a plain model.
struct Model {
    start: String,
    end: Regex,
    opening: &'static str,
    prefixes: Vec<&'static str>,
    inside: &'static str,
    is_json: bool,
    starts: Vec<String>,
    ends: Vec<String>,
    started: bool,
    ended: bool,
    hit: bool,
}

impl Model {
    fn new(field: &str, adapter: AdapterType) -> Self {
        let (start, end, opening, prefixes, inside) = match adapter {
            AdapterType::ChatAdapter => (
                format!("[[ ## {field} ## ]]"),
                Regex::new(r"\[\[ ## (\w+) ## \]\]").unwrap(),
                "[",
                vec!["[", "[[", "[[ ", "[[ #", "[[ ##"],
                "[[ ##",
            ),
            AdapterType::JsonAdapter => (
                format!("\"{field}\":"),
                Regex::new(r#"\w*"(,|\s*\})"#).unwrap(),
                "\"",
                vec!["\"", "\",", "\" ", "\"}"],
                "}",
            ),
            AdapterType::XmlAdapter => (
                format!("<{field}>"),
                Regex::new(&format!("</{field}>")).unwrap(),
                "<",
                vec!["<", "</"],
                "</",
            ),
        };
        Model {
            start,
            end,
            opening,
            prefixes,
            inside,
            is_json: adapter == AdapterType::JsonAdapter,
            starts: Vec::new(),
            ends: Vec::new(),
            started: false,
            ended: false,
            hit: false,
        }
    }

    fn flush(&mut self) -> String {
        let all = self.ends.concat();
        self.ends.clear();
        match self.end.find(&all) {
            Some(m) => all[..m.start()].to_string(),
            None => all,
        }
    }

    fn may_start(&self, text: &str) -> bool {
        (1..=text.len().min(self.start.len())).any(|n| {
            text.is_char_boundary(text.len() - n) && self.start.starts_with(&text[text.len() - n..])
        })
    }

    fn may_end(&self, text: &str) -> bool {
        self.prefixes.iter().any(|p| text.ends_with(p)) || text.contains(self.inside)
    }

    /// The chunk that comes of a part, and whether it is the last.
    fn receive(&mut self, part: &str) -> Option<(Option<String>, bool)> {
        if self.ended {
            return None;
        }
        if !self.is_json {
            if let Some(at) = part.find(&self.start) {
                if self.end.is_match(&part[at + self.start.len()..]) {
                    self.hit = true;
                    self.started = true;
                    self.ended = true;
                    return None;
                }
            }
        }
        if self.starts.is_empty() && !self.started && part.contains(self.opening) {
            self.starts.push(part.to_string());
            return None;
        }
        let mut part = part.to_string();
        if !self.starts.is_empty() && !self.started {
            self.starts.push(part.clone());
            let all = self.starts.concat();
            match all.find(&self.start) {
                Some(at) => {
                    self.started = true;
                    self.starts.clear();
                    part = all[at + self.start.len()..].trim_start().to_string();
                }
                None => {
                    if !self.may_start(all.trim()) {
                        self.starts.clear();
                    }
                    return None;
                }
            }
        }
        if !self.started || part.is_empty() {
            return None;
        }
        self.ends.push(part);
        let all = self.ends.concat().trim().to_string();
        let mut token = None;
        if !self.may_end(&all) {
            token = Some(self.flush());
        } else if self.ends.len() > 10 {
            token = Some(self.ends.remove(0));
        }
        if self.end.is_match(&all) {
            self.ended = true;
            let last = self.flush();
            let text = format!("{}{}", token.unwrap_or_default(), last);
            token = Some(text.trim_end().to_string());
        }
        if token.is_some() || self.ended {
            Some((token, self.ended))
        } else {
            None
        }
    }
}

fn compare(adapter: AdapterType, tokens: &[&str], rounds: usize) {
    let mut state: u64 = 11;
    let mut next = |n: usize| {
        state = state.wrapping_mul(6364136223846793005).wrapping_add(1442695040888963407);
        (state >> 33) as usize % n
    };
    for _ in 0..rounds {
        let mut listener = StreamListener::new("ans", None, false);
        let mut model = Model::new("ans", adapter);
        for _ in 0..18 {
            let mut part = String::new();
            for _ in 0..next(3) {
                part.push_str(tokens[next(tokens.len())]);
            }
            if !listener.is_receivable(&part, adapter) {
                break;
            }
            let got = listener.receive(&part, adapter).map(|r| (r.chunk, r.is_last_chunk));
            assert_eq!(got, model.receive(&part), "{part:?}");
            assert_eq!(listener.stream_start, model.started);
            assert_eq!(listener.stream_end, model.ended);
            assert_eq!(listener.cache_hit, model.hit);
            assert_eq!(listener.field_start_queue, model.starts);
            assert_eq!(listener.field_end_queue, model.ends);
        }
    }
}

#[test]
fn chat_streams_are_as_in_the_model() {
    let tokens = ["[[ ## ", "ans", " ## ]]", "[[", " ##", " ]]", "x", "\n", "y ", "[", "\u{e9}"];
    compare(AdapterType::ChatAdapter, &tokens, 200);
}

#[test]
fn json_streams_are_as_in_the_model() {
    let tokens = ["\"ans\":", "{", "\"", ",", "}", " ", "x", "\"a", "ns\":"];
    compare(AdapterType::JsonAdapter, &tokens, 100);
}

#[test]
fn xml_streams_are_as_in_the_model() {
    let tokens = ["<ans>", "<", "ans", ">", "</", "</ans>", "x", " ", "\n"];
    compare(AdapterType::XmlAdapter, &tokens, 200);
}
