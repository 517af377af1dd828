//! Streaming: a listener picks the text of one field out of the parts of a reply, as
//! they come.

use crate::adapter::{around, marker, marker_of};
use crate::error::Result;
use crate::prediction::{Prediction, PredictionSpec};
use crate::signature::{copy_opt, opt_view};
use crate::text::{
    begins_with, byte_prefix, byte_prefix_of, chars_of, contains, cuts_cleanly, ends_with,
    find_chars, find_first, finishes_with, has_text, join, join_of, lemma_byte_prefix, matches_at,
    occurs_at, push_text, slice_text, starts_with, texts, trim, trim_end, trim_end_of, trim_of,
    trim_start, trim_start_of,
};
use crate::unicode::{word_char, word_flags};
use vstd::prelude::*;

verus! {

// ---------------------------------------------------------------------------
// What flows
// ---------------------------------------------------------------------------

/// A part of the text of a field.
#[derive(Debug)]
pub struct StreamResponse {
    /// The predictor that the part comes from.
    pub predict_name: Option<String>,
    pub field_name: String,
    pub chunk: Option<String>,
    /// Nothing more of the field comes after this part.
    pub is_last_chunk: bool,
}

/// What a part says.
pub struct ChunkSpec {
    pub predict_name: Option<Seq<char>>,
    pub field_name: Seq<char>,
    pub chunk: Option<Seq<char>>,
    pub is_last_chunk: bool,
}

impl View for StreamResponse {
    type V = ChunkSpec;

    open spec fn view(&self) -> ChunkSpec {
        ChunkSpec {
            predict_name: opt_view(self.predict_name),
            field_name: self.field_name@,
            chunk: opt_view(self.chunk),
            is_last_chunk: self.is_last_chunk,
        }
    }
}

/// What a program is doing.
#[derive(Debug)]
pub struct StatusMessage {
    pub message: String,
    pub module_name: Option<String>,
}

/// What flows through a stream.
#[derive(Debug)]
pub enum StreamValue {
    Chunk(StreamResponse),
    Status(StatusMessage),
    Result(Prediction),
}

/// What a value of a stream says.
pub enum StreamSpec {
    Chunk(ChunkSpec),
    Status(Seq<char>, Option<Seq<char>>),
    Result(PredictionSpec),
}

impl View for StreamValue {
    type V = StreamSpec;

    open spec fn view(&self) -> StreamSpec {
        match *self {
            StreamValue::Chunk(c) => StreamSpec::Chunk(c@),
            StreamValue::Status(s) => StreamSpec::Status(s.message@, opt_view(s.module_name)),
            StreamValue::Result(p) => StreamSpec::Result(p@),
        }
    }
}

/// The adapter whose replies are streamed.
#[derive(Debug, Clone, Copy, PartialEq, Eq, Structural)]
pub enum AdapterType {
    ChatAdapter,
    JsonAdapter,
    XmlAdapter,
}

// ---------------------------------------------------------------------------
// Where a field begins and ends
// ---------------------------------------------------------------------------

/// Whether a text is a pattern that the `regex` crate takes.
pub uninterp spec fn is_pattern(p: Seq<char>) -> bool;

/// Where the first match of a pattern begins, in bytes.
pub uninterp spec fn match_offset(p: Seq<char>, text: Seq<char>) -> Option<int>;

/// Where the first match of a pattern begins, in characters.
pub open spec fn match_start(p: Seq<char>, text: Seq<char>) -> Option<int> {
    match match_offset(p, text) {
        Some(b) => Some(byte_prefix_of(text, b).len() as int),
        None => None,
    }
}

/// A character that stands for itself in a pattern.
pub open spec fn stands_for_itself(c: char) -> bool {
    word_char(c) || c == '<' || c == '>' || c == '/'
}

/// Every character stands for itself in a pattern.
pub open spec fn is_literal(p: Seq<char>) -> bool {
    forall|i: int| 0 <= i < p.len() ==> stands_for_itself(#[trigger] p[i])
}

/// `regex::Regex::new`, asked whether it takes a text. The answer is
/// [`is_pattern`]; a text of up to 1000 characters that stand for themselves is
/// taken.
#[verifier::external_body]
fn takes_pattern(p: &str) -> (r: bool)
    ensures
        r == is_pattern(p@),
        is_literal(p@) && p@.len() <= 1000 ==> r,
{
    regex::Regex::new(p).is_ok()
}

/// `regex::Regex::find`, and where the match begins. The place is [`match_offset`], in
/// bytes, and lies between two characters; a text of characters that stand for themselves
/// is found where it first stands.
#[verifier::external_body]
fn pattern_offset(p: &str, text: &str) -> (r: Option<usize>)
    requires
        is_pattern(p@),
    ensures
        r is Some <==> match_offset(p@, text@) is Some,
        r matches Some(b) ==> match_offset(p@, text@) == Some(b as int) && cuts_cleanly(
            text@,
            b as int,
        ),
        is_literal(p@) ==> (r is Some <==> find_first(text@, p@) is Some) && (r matches Some(b)
            ==> find_first(text@, p@) == Some(byte_prefix_of(text@, b as int).len() as int)),
{
    regex::Regex::new(p).unwrap().find(text).map(|m| m.start())
}

/// Where the first match of a pattern begins, in characters.
fn find_pattern(p: &str, text: &str) -> (r: Option<usize>)
    requires
        is_pattern(p@),
    ensures
        match r {
            Some(i) => match_start(p@, text@) == Some(i as int) && i <= text@.len(),
            None => match_start(p@, text@) is None,
        },
        is_literal(p@) ==> match r {
            Some(i) => find_first(text@, p@) == Some(i as int),
            None => find_first(text@, p@) is None,
        },
{
    match pattern_offset(p, text) {
        Some(b) => {
            let before = byte_prefix(text, b);
            let n: usize = chars_of(before.as_str()).len();
            proof {
                lemma_byte_prefix(text@, b as int);
            }
            Some(n)
        },
        None => None,
    }
}

/// How many word characters stand at `p`.
pub open spec fn word_run(s: Seq<char>, p: int) -> nat
    decreases s.len() - p,
{
    if 0 <= p < s.len() && word_char(s[p]) {
        word_run(s, p + 1) + 1
    } else {
        0
    }
}

/// A marker of some field stands at `p`.
pub open spec fn marker_at(s: Seq<char>, p: int) -> bool {
    occurs_at(s, "[[ ## "@, p) && word_run(s, p + 6) > 0 && occurs_at(
        s,
        " ## ]]"@,
        p + 6 + word_run(s, p + 6),
    )
}

/// The first marker from `p` on.
pub open spec fn marker_from(s: Seq<char>, p: int) -> Option<int>
    decreases s.len() - p,
{
    if p < 0 || p >= s.len() {
        None
    } else if marker_at(s, p) {
        Some(p)
    } else {
        marker_from(s, p + 1)
    }
}

/// A quote at `q` ends a text in JSON: a comma follows, or a closing brace after
/// white space.
pub open spec fn quote_ends(s: Seq<char>, q: int) -> bool {
    0 <= q < s.len() && s[q] == '"' && q + 1 < s.len() && (s[q + 1] == ',' || {
        let rest = trim_start_of(s.skip(q + 1));
        rest.len() > 0 && rest[0] == '}'
    })
}

/// The first quote from `q` on that ends a text.
pub open spec fn end_quote_from(s: Seq<char>, q: int) -> Option<int>
    decreases s.len() - q,
{
    if q < 0 || q >= s.len() {
        None
    } else if quote_ends(s, q) {
        Some(q)
    } else {
        end_quote_from(s, q + 1)
    }
}

/// Where the word begins that stands before `q`.
pub open spec fn word_start(s: Seq<char>, q: int) -> int
    decreases q,
{
    if 0 < q <= s.len() && word_char(s[q - 1]) {
        word_start(s, q - 1)
    } else {
        q
    }
}

/// The pattern that ends a field in XML.
pub open spec fn xml_pattern(field: Seq<char>) -> Seq<char> {
    "</"@ + field + ">"@
}

/// Where the end of a field is found in a text: for the chat adapter a marker, for
/// the JSON adapter a quote that ends a text, with the word before it, and for the XML
/// adapter the closing tag, read as a pattern; one of characters that stand for
/// themselves is found where it first stands.
pub open spec fn end_found(field: Seq<char>, a: AdapterType, s: Seq<char>) -> Option<int> {
    match a {
        AdapterType::ChatAdapter => marker_from(s, 0),
        AdapterType::JsonAdapter => match end_quote_from(s, 0) {
            Some(q) => Some(word_start(s, q)),
            None => None,
        },
        AdapterType::XmlAdapter => if is_literal(xml_pattern(field)) {
            find_first(s, xml_pattern(field))
        } else {
            match_start(xml_pattern(field), s)
        },
    }
}

/// What opens a field.
pub open spec fn start_text(field: Seq<char>, a: AdapterType) -> Seq<char> {
    match a {
        AdapterType::ChatAdapter => marker_of(field),
        AdapterType::JsonAdapter => "\""@ + field + "\":"@,
        AdapterType::XmlAdapter => "<"@ + field + ">"@,
    }
}

/// What the opening of a field begins with.
pub open spec fn start_sign(a: AdapterType) -> Seq<char> {
    match a {
        AdapterType::ChatAdapter => "["@,
        AdapterType::JsonAdapter => "\""@,
        AdapterType::XmlAdapter => "<"@,
    }
}

/// A text may go on to the end of a field.
pub open spec fn may_end(s: Seq<char>, a: AdapterType) -> bool {
    match a {
        AdapterType::ChatAdapter => finishes_with(s, "["@) || finishes_with(s, "[["@)
            || finishes_with(s, "[[ "@) || finishes_with(s, "[[ #"@) || finishes_with(
            s,
            "[[ ##"@,
        ) || has_text(s, "[[ ##"@),
        AdapterType::JsonAdapter => finishes_with(s, "\""@) || finishes_with(s, "\","@)
            || finishes_with(s, "\" "@) || finishes_with(s, "\"}"@) || has_text(s, "}"@),
        AdapterType::XmlAdapter => finishes_with(s, "<"@) || finishes_with(s, "</"@) || has_text(
            s,
            "</"@,
        ),
    }
}

/// The last `k` characters of a text begin another.
pub open spec fn tail_begins(s: Seq<char>, k: int, opening: Seq<char>) -> bool {
    0 < k <= s.len() && begins_with(opening, s.skip(s.len() - k))
}

/// A text may go on to the opening of a field: it ends with the beginning of one.
pub open spec fn may_start(s: Seq<char>, opening: Seq<char>) -> bool {
    exists|k: int| #[trigger] tail_begins(s, k, opening)
}

/// A text can be looked at from its end, character by character, until the beginning
/// of an opening is found: only ASCII characters come on the way.
pub open spec fn can_look_back(s: Seq<char>, opening: Seq<char>) -> bool {
    forall|k: int|
        #![trigger s[s.len() - k]]
        0 < k <= s.len() && (forall|j: int| 0 < j < k ==> !tail_begins(s, j, opening)) ==> (s[s.len()
            - k] as u32) < 128
}

proof fn lemma_literal_xml(field: Seq<char>)
    requires
        forall|i: int| 0 <= i < field.len() ==> word_char(#[trigger] field[i]),
    ensures
        is_literal(xml_pattern(field)),
{
    reveal_strlit("</");
    reveal_strlit(">");
    let p = xml_pattern(field);
    assert forall|i: int| 0 <= i < p.len() implies stands_for_itself(#[trigger] p[i]) by {
        if 2 <= i < 2 + field.len() {
            assert(p[i] == field[i - 2]);
            assert(word_char(field[i - 2]));
        }
    }
}

fn find_marker(s: &str) -> (r: Option<usize>)
    ensures
        match r {
            Some(p) => marker_from(s@, 0) == Some(p as int) && p <= s@.len(),
            None => marker_from(s@, 0) is None,
        },
{
    proof {
        reveal_strlit("[[ ## ");
        reveal_strlit(" ## ]]");
    }
    let v = chars_of(s);
    let flags = word_flags(s);
    let open = chars_of("[[ ## ");
    let close = chars_of(" ## ]]");
    let n: usize = v.len();
    let mut p: usize = 0;
    while p < n
        invariant
            n == v@.len(),
            p <= n,
            v@ == s@,
            open@ == "[[ ## "@,
            close@ == " ## ]]"@,
            "[[ ## "@.len() == 6,
            flags@.len() == n,
            forall|k: int| 0 <= k < n ==> #[trigger] flags@[k] == word_char(v@[k]),
            marker_from(s@, 0) == marker_from(s@, p as int),
        decreases n - p,
    {
        if matches_at(&v, &open, p) {
            let mut e: usize = p + 6;
            while e < n && flags[e]
                invariant
                    p + 6 <= e <= n,
                    n == v@.len(),
                    v@ == s@,
                    flags@.len() == n,
                    forall|k: int| 0 <= k < n ==> #[trigger] flags@[k] == word_char(v@[k]),
                    word_run(s@, p + 6) == (e - p - 6) + word_run(s@, e as int),
                decreases n - e,
            {
                e = e + 1;
            }
            proof {
                assert(word_run(s@, e as int) == 0);
            }
            if e > p + 6 && matches_at(&v, &close, e) {
                return Some(p);
            }
        }
        p = p + 1;
    }
    None
}

fn find_end_quote(s: &str) -> (r: Option<usize>)
    ensures
        match r {
            Some(p) => end_quote_from(s@, 0) matches Some(q) && p == word_start(s@, q) && p
                <= s@.len(),
            None => end_quote_from(s@, 0) is None,
        },
{
    let v = chars_of(s);
    let flags = word_flags(s);
    let n: usize = v.len();
    let mut q: usize = 0;
    while q < n
        invariant
            n == v@.len(),
            q <= n,
            v@ == s@,
            flags@.len() == n,
            forall|k: int| 0 <= k < n ==> #[trigger] flags@[k] == word_char(v@[k]),
            end_quote_from(s@, 0) == end_quote_from(s@, q as int),
        decreases n - q,
    {
        if v[q] == '"' && n - q > 1 {
            let mut ends = v[q + 1] == ',';
            if !ends {
                let after = slice_text(&v, q + 1, n);
                proof {
                    assert(after@ =~= s@.skip(q + 1));
                }
                let rest = chars_of(trim_start(after.as_str()).as_str());
                ends = rest.len() > 0 && rest[0] == '}';
            }
            if ends {
                let mut p: usize = q;
                proof {
                    assert(quote_ends(s@, q as int));
                }
                while p > 0 && flags[p - 1]
                    invariant
                        p <= q < n,
                        n == v@.len(),
                        v@ == s@,
                        flags@.len() == n,
                        forall|k: int| 0 <= k < n ==> #[trigger] flags@[k] == word_char(v@[k]),
                        word_start(s@, q as int) == word_start(s@, p as int),
                    decreases p,
                {
                    p = p - 1;
                }
                return Some(p);
            }
        }
        q = q + 1;
    }
    None
}

fn end_in(field: &str, a: AdapterType, s: &str) -> (r: Option<usize>)
    requires
        is_pattern(xml_pattern(field@)),
    ensures
        match r {
            Some(p) => end_found(field@, a, s@) == Some(p as int) && p <= s@.len(),
            None => end_found(field@, a, s@) is None,
        },
{
    match a {
        AdapterType::ChatAdapter => find_marker(s),
        AdapterType::JsonAdapter => find_end_quote(s),
        AdapterType::XmlAdapter => find_pattern(around("</", field, ">").as_str(), s),
    }
}

fn opening(field: &str, a: AdapterType) -> (r: String)
    ensures
        r@ == start_text(field@, a),
{
    match a {
        AdapterType::ChatAdapter => marker(field),
        AdapterType::JsonAdapter => around("\"", field, "\":"),
        AdapterType::XmlAdapter => around("<", field, ">"),
    }
}

fn sign(a: AdapterType) -> (r: &'static str)
    ensures
        r@ == start_sign(a),
{
    match a {
        AdapterType::ChatAdapter => "[",
        AdapterType::JsonAdapter => "\"",
        AdapterType::XmlAdapter => "<",
    }
}

/// Whether a text may go on to the end of a field.
pub fn could_form_end(s: &str, a: AdapterType) -> (r: bool)
    ensures
        r == may_end(s@, a),
{
    match a {
        AdapterType::ChatAdapter => ends_with(s, "[") || ends_with(s, "[[") || ends_with(s, "[[ ")
            || ends_with(s, "[[ #") || ends_with(s, "[[ ##") || contains(s, "[[ ##"),
        AdapterType::JsonAdapter => ends_with(s, "\"") || ends_with(s, "\",") || ends_with(
            s,
            "\" ",
        ) || ends_with(s, "\"}") || contains(s, "}"),
        AdapterType::XmlAdapter => ends_with(s, "<") || ends_with(s, "</") || contains(s, "</"),
    }
}

/// Whether a text may go on to the opening of a field. It is looked at from its end,
/// byte by byte.
pub fn could_form_start(s: &str, opening: &str) -> (r: bool)
    requires
        can_look_back(s@, opening@),
    ensures
        r == may_start(s@, opening@),
{
    let v = chars_of(s);
    let n: usize = v.len();
    let mut k: usize = 1;
    while k <= n
        invariant
            n == v@.len(),
            v@ == s@,
            1 <= k,
            k <= n + 1,
            forall|j: int| 0 < j < k ==> !#[trigger] tail_begins(s@, j, opening@),
        decreases n + 1 - k,
    {
        let tail = slice_text(&v, n - k, n);
        proof {
            assert(tail@ =~= s@.skip(s@.len() - k));
        }
        if starts_with(opening, tail.as_str()) {
            proof {
                assert(tail_begins(s@, k as int, opening@));
            }
            return true;
        }
        if k == n {
            return false;
        }
        k = k + 1;
    }
    false
}

/// Whether a text can be looked at from its end.
pub fn can_scan_back(s: &str, opening: &str) -> (r: bool)
    ensures
        r == can_look_back(s@, opening@),
{
    let v = chars_of(s);
    let n: usize = v.len();
    let mut k: usize = 1;
    if n == 0 {
        return true;
    }
    while k <= n
        invariant
            n == v@.len(),
            n > 0,
            v@ == s@,
            1 <= k <= n,
            forall|j: int| 0 < j < k ==> !#[trigger] tail_begins(s@, j, opening@),
            forall|j: int|
                #![trigger s@[s@.len() - j]]
                0 < j < k ==> (s@[s@.len() - j] as u32) < 128,
        decreases n + 1 - k,
    {
        if v[n - k] as u32 >= 128 {
            proof {
                assert(!((s@[s@.len() - k] as u32) < 128));
            }
            return false;
        }
        let tail = slice_text(&v, n - k, n);
        proof {
            assert(tail@ =~= s@.skip(s@.len() - k));
        }
        if starts_with(opening, tail.as_str()) {
            proof {
                assert(tail_begins(s@, k as int, opening@));
                assert forall|j: int|
                    #![trigger s@[s@.len() - j]]
                    0 < j <= s@.len() && (forall|i: int|
                        0 < i < j ==> !tail_begins(s@, i, opening@)) implies (s@[s@.len() - j] as u32)
                    < 128 by {
                    if j > k {
                        assert(!tail_begins(s@, k as int, opening@));
                    }
                }
            }
            return true;
        }
        if k == n {
            return true;
        }
        k = k + 1;
    }
    true
}

// ---------------------------------------------------------------------------
// The listener
// ---------------------------------------------------------------------------

/// Picks the text of one field out of a stream.
#[derive(Debug)]
pub struct StreamListener {
    pub signature_field_name: String,
    pub predict_name: Option<String>,
    pub allow_reuse: bool,
    /// Parts that may belong to the opening of the field.
    pub field_start_queue: Vec<String>,
    /// Parts of the field that may belong to its end.
    pub field_end_queue: Vec<String>,
    pub stream_start: bool,
    pub stream_end: bool,
    /// The whole reply came in one part.
    pub cache_hit: bool,
    pub active_adapter: Option<AdapterType>,
}

/// Where a listener stands.
pub struct ListenerSpec {
    pub field: Seq<char>,
    pub predict_name: Option<Seq<char>>,
    pub allow_reuse: bool,
    pub start_queue: Seq<Seq<char>>,
    pub end_queue: Seq<Seq<char>>,
    pub stream_start: bool,
    pub stream_end: bool,
    pub cache_hit: bool,
    pub active: Option<AdapterType>,
}

impl View for StreamListener {
    type V = ListenerSpec;

    open spec fn view(&self) -> ListenerSpec {
        ListenerSpec {
            field: self.signature_field_name@,
            predict_name: opt_view(self.predict_name),
            allow_reuse: self.allow_reuse,
            start_queue: texts(self.field_start_queue@),
            end_queue: texts(self.field_end_queue@),
            stream_start: self.stream_start,
            stream_end: self.stream_end,
            cache_hit: self.cache_hit,
            active: self.active_adapter,
        }
    }
}

/// Parts put together.
pub open spec fn together(q: Seq<Seq<char>>) -> Seq<char> {
    join_of(q, Seq::empty())
}

impl ListenerSpec {
    /// A new listener.
    pub open spec fn fresh(
        field: Seq<char>,
        predict_name: Option<Seq<char>>,
        allow_reuse: bool,
    ) -> ListenerSpec {
        ListenerSpec {
            field,
            predict_name,
            allow_reuse,
            start_queue: Seq::empty(),
            end_queue: Seq::empty(),
            stream_start: false,
            stream_end: false,
            cache_hit: false,
            active: None,
        }
    }

    /// The listener as it was when it was new.
    pub open spec fn again(self) -> ListenerSpec {
        ListenerSpec::fresh(self.field, self.predict_name, self.allow_reuse)
    }

    /// What is left of the field, without its end.
    pub open spec fn flushed(self) -> Seq<char> {
        let all = together(self.end_queue);
        match self.active {
            Some(a) => match end_found(self.field, a, all) {
                Some(p) => all.take(p),
                None => all,
            },
            None => all,
        }
    }

    /// The listener with nothing of the field left.
    pub open spec fn emptied(self) -> ListenerSpec {
        ListenerSpec { end_queue: Seq::empty(), ..self }
    }

    /// A part of the field.
    pub open spec fn part(self, chunk: Option<Seq<char>>) -> ChunkSpec {
        ChunkSpec {
            predict_name: self.predict_name,
            field_name: self.field,
            chunk,
            is_last_chunk: self.stream_end,
        }
    }

    /// The whole reply came in one part.
    pub open spec fn is_whole(self, chunk: Seq<char>, a: AdapterType) -> bool {
        let open = start_text(self.field, a);
        match find_first(chunk, open) {
            Some(p) => a != AdapterType::JsonAdapter && end_found(
                self.field,
                a,
                chunk.skip(p + open.len()),
            ) is Some,
            None => false,
        }
    }

    /// Text of the field came.
    pub open spec fn with_text(self, text: Seq<char>, a: AdapterType) -> (
        ListenerSpec,
        Option<ChunkSpec>,
    ) {
        if text.len() == 0 {
            (self, None)
        } else {
            let l = ListenerSpec { end_queue: self.end_queue.push(text), ..self };
            let seen = trim_of(together(l.end_queue));
            let (l2, token): (ListenerSpec, Option<Seq<char>>) = if !may_end(seen, a) {
                (l.emptied(), Some(l.flushed()))
            } else if l.end_queue.len() > 10 {
                (ListenerSpec { end_queue: l.end_queue.skip(1), ..l }, Some(l.end_queue[0]))
            } else {
                (l, None)
            };
            if end_found(self.field, a, seen) is Some {
                let last = l2.flushed();
                let first = match token {
                    Some(t) => t,
                    None => Seq::empty(),
                };
                let l3 = ListenerSpec { stream_end: true, ..l2.emptied() };
                (l3, Some(l3.part(Some(trim_end_of(first + last)))))
            } else if token is Some || l2.stream_end {
                (l2, Some(l2.part(token)))
            } else {
                (l2, None)
            }
        }
    }

    /// A part came that may belong to the opening of the field or to its text.
    pub open spec fn with_part(self, chunk: Seq<char>, a: AdapterType) -> (
        ListenerSpec,
        Option<ChunkSpec>,
    ) {
        let open = start_text(self.field, a);
        if self.is_whole(chunk, a) {
            (
                ListenerSpec { cache_hit: true, stream_start: true, stream_end: true, ..self },
                None,
            )
        } else if self.stream_start {
            self.with_text(chunk, a)
        } else if self.start_queue.len() == 0 {
            if has_text(chunk, start_sign(a)) {
                (ListenerSpec { start_queue: self.start_queue.push(chunk), ..self }, None)
            } else {
                (self, None)
            }
        } else {
            let q = self.start_queue.push(chunk);
            let all = together(q);
            match find_first(all, open) {
                Some(p) => ListenerSpec {
                    start_queue: Seq::empty(),
                    stream_start: true,
                    ..self
                }.with_text(trim_start_of(all.skip(p + open.len())), a),
                None => if may_start(trim_of(all), open) {
                    (ListenerSpec { start_queue: q, ..self }, None)
                } else {
                    (ListenerSpec { start_queue: Seq::empty(), ..self }, None)
                },
            }
        }
    }

    /// A part of a reply came.
    pub open spec fn received(self, chunk: Seq<char>, a: AdapterType) -> (
        ListenerSpec,
        Option<ChunkSpec>,
    ) {
        let l = ListenerSpec { active: Some(a), ..self };
        if self.stream_end {
            if self.allow_reuse {
                l.again().with_part(chunk, a)
            } else {
                (l, None)
            }
        } else {
            l.with_part(chunk, a)
        }
    }

    /// What the listener looks at from its end when a part comes, if it does.
    pub open spec fn looks_back_at(self, chunk: Seq<char>, a: AdapterType) -> Option<Seq<char>> {
        let all = together(self.start_queue.push(chunk));
        if self.stream_end || self.is_whole(chunk, a) || self.stream_start
            || self.start_queue.len() == 0 || has_text(all, start_text(self.field, a)) {
            None
        } else {
            Some(trim_of(all))
        }
    }

    /// A part can be taken.
    pub open spec fn can_receive(self, chunk: Seq<char>, a: AdapterType) -> bool {
        match self.looks_back_at(chunk, a) {
            Some(t) => can_look_back(t, start_text(self.field, a)),
            None => true,
        }
    }

    /// The stream is over.
    pub open spec fn finalized(self) -> (ListenerSpec, Option<ChunkSpec>) {
        if self.stream_end || !self.stream_start {
            (self, None)
        } else {
            let l = ListenerSpec { stream_end: true, ..self };
            if self.end_queue.len() > 0 {
                if l.flushed().len() > 0 {
                    (l.emptied(), Some(l.emptied().part(Some(l.flushed()))))
                } else {
                    (l.emptied(), None)
                }
            } else {
                (l, None)
            }
        }
    }
}

/// What an optional part says.
pub open spec fn opt_chunk(c: Option<StreamResponse>) -> Option<ChunkSpec> {
    match c {
        Some(x) => Some(x@),
        None => None,
    }
}

fn join_parts(q: &Vec<String>) -> (r: String)
    ensures
        r@ == together(texts(q@)),
{
    proof {
        reveal_strlit("");
        assert(""@ =~= Seq::<char>::empty());
    }
    join(q, "")
}

impl StreamListener {
    /// The closing tag of the field is a pattern.
    pub open spec fn wf(self) -> bool {
        is_pattern(xml_pattern(self@.field))
    }

    /// A listener on a field whose closing tag is a pattern.
    pub fn new(field_name: &str, predict_name: Option<String>, allow_reuse: bool) -> (r: Self)
        requires
            is_pattern(xml_pattern(field_name@)),
        ensures
            r@ == ListenerSpec::fresh(field_name@, opt_view(predict_name), allow_reuse),
            r.wf(),
    {
        let r = StreamListener {
            signature_field_name: field_name.to_owned(),
            predict_name,
            allow_reuse,
            field_start_queue: Vec::new(),
            field_end_queue: Vec::new(),
            stream_start: false,
            stream_end: false,
            cache_hit: false,
            active_adapter: None,
        };
        proof {
            assert(texts(r.field_start_queue@) =~= Seq::<Seq<char>>::empty());
            assert(texts(r.field_end_queue@) =~= Seq::<Seq<char>>::empty());
        }
        r
    }

    /// A listener on a field, unless its closing tag is no pattern. The name of a
    /// field that is a word of up to 900 characters makes one.
    pub fn try_new(field_name: &str, predict_name: Option<String>, allow_reuse: bool) -> (r: Option<
        Self,
    >)
        ensures
            match r {
                Some(l) => l.wf() && l@ == ListenerSpec::fresh(
                    field_name@,
                    opt_view(predict_name),
                    allow_reuse,
                ),
                None => !is_pattern(xml_pattern(field_name@)),
            },
            (forall|i: int| 0 <= i < field_name@.len() ==> word_char(#[trigger] field_name@[i]))
                && field_name@.len() <= 900 ==> r is Some,
    {
        proof {
            if (forall|i: int| 0 <= i < field_name@.len() ==> word_char(#[trigger] field_name@[i]))
                && field_name@.len() <= 900 {
                lemma_literal_xml(field_name@);
                reveal_strlit("</");
                reveal_strlit(">");
            }
        }
        if takes_pattern(around("</", field_name, ">").as_str()) {
            Some(StreamListener::new(field_name, predict_name, allow_reuse))
        } else {
            None
        }
    }

    /// What is left of the field, without its end.
    pub fn flush(&mut self) -> (r: String)
        requires
            old(self).wf(),
        ensures
            r@ == old(self)@.flushed(),
            final(self)@ == old(self)@.emptied(),
            final(self).wf(),
    {
        let tokens = join_parts(&self.field_end_queue);
        self.field_end_queue = Vec::new();
        proof {
            assert(texts(self.field_end_queue@) =~= Seq::<Seq<char>>::empty());
        }
        match self.active_adapter {
            Some(a) => match end_in(self.signature_field_name.as_str(), a, tokens.as_str()) {
                Some(p) => {
                    let v = chars_of(tokens.as_str());
                    let cut = slice_text(&v, 0, p);
                    proof {
                        assert(cut@ =~= tokens@.take(p as int));
                    }
                    cut
                },
                None => tokens,
            },
            None => tokens,
        }
    }

    fn response(&self, chunk: Option<String>) -> (r: StreamResponse)
        ensures
            r@ == self@.part(opt_view(chunk)),
    {
        StreamResponse {
            predict_name: copy_opt(&self.predict_name),
            field_name: self.signature_field_name.clone(),
            chunk,
            is_last_chunk: self.stream_end,
        }
    }

    fn take_text(&mut self, text: String, a: AdapterType) -> (r: Option<StreamResponse>)
        requires
            old(self).wf(),
        ensures
            (final(self)@, opt_chunk(r)) == old(self)@.with_text(text@, a),
            final(self).wf(),
    {
        let ghost start = self@;
        if text.as_str().is_empty() {
            return None;
        }
        push_text(&mut self.field_end_queue, text);
        let ghost l = self@;
        let seen = trim(join_parts(&self.field_end_queue).as_str());
        let mut token: Option<String> = None;
        if !could_form_end(seen.as_str(), a) {
            token = Some(self.flush());
        } else if self.field_end_queue.len() > 10 {
            let ghost before = self.field_end_queue@;
            let first = self.field_end_queue.remove(0);
            proof {
                assert(texts(self.field_end_queue@) =~= texts(before).skip(1));
                assert(texts(before)[0] == first@);
            }
            token = Some(first);
        }
        if end_in(self.signature_field_name.as_str(), a, seen.as_str()).is_some() {
            self.stream_end = true;
            let last = self.flush();
            let mut combined = match token {
                Some(t) => t,
                None => String::new(),
            };
            proof {
                if token is None {
                    assert(combined@ =~= Seq::<char>::empty());
                }
            }
            combined.append(last.as_str());
            let r = self.response(Some(trim_end(combined.as_str())));
            return Some(r);
        }
        if token.is_some() || self.stream_end {
            let r = self.response(token);
            return Some(r);
        }
        None
    }

    fn take_part(&mut self, chunk: &str, a: AdapterType) -> (r: Option<StreamResponse>)
        requires
            old(self).wf(),
            !old(self)@.stream_end,
            old(self)@.can_receive(chunk@, a),
        ensures
            (final(self)@, opt_chunk(r)) == old(self)@.with_part(chunk@, a),
            final(self).wf(),
    {
        let open = opening(self.signature_field_name.as_str(), a);
        let v = chars_of(chunk);
        let o = chars_of(open.as_str());
        let n: usize = v.len();
        if a != AdapterType::JsonAdapter {
            if let Some(p) = find_chars(&v, &o, 0) {
                let after = slice_text(&v, p + o.len(), n);
                proof {
                    assert(after@ =~= chunk@.skip(p + o@.len()));
                }
                if end_in(self.signature_field_name.as_str(), a, after.as_str()).is_some() {
                    self.cache_hit = true;
                    self.stream_start = true;
                    self.stream_end = true;
                    return None;
                }
            }
        }
        proof {
            assert(!self@.is_whole(chunk@, a));
        }
        if self.stream_start {
            return self.take_text(chunk.to_owned(), a);
        }
        if self.field_start_queue.len() == 0 {
            if contains(chunk, sign(a)) {
                push_text(&mut self.field_start_queue, chunk.to_owned());
            }
            return None;
        }
        push_text(&mut self.field_start_queue, chunk.to_owned());
        let all = join_parts(&self.field_start_queue);
        let w = chars_of(all.as_str());
        match find_chars(&w, &o, 0) {
            Some(p) => {
                let m: usize = w.len();
                let after = slice_text(&w, p + o.len(), m);
                proof {
                    assert(after@ =~= all@.skip(p + o@.len()));
                }
                self.stream_start = true;
                self.field_start_queue = Vec::new();
                proof {
                    assert(texts(self.field_start_queue@) =~= Seq::<Seq<char>>::empty());
                }
                self.take_text(trim_start(after.as_str()), a)
            },
            None => {
                if !could_form_start(trim(all.as_str()).as_str(), open.as_str()) {
                    self.field_start_queue = Vec::new();
                    proof {
                        assert(texts(self.field_start_queue@) =~= Seq::<Seq<char>>::empty());
                    }
                }
                None
            },
        }
    }

    /// Takes a part of a reply: what it adds to the text of the field, if anything.
    pub fn receive(&mut self, chunk_message: &str, adapter_type: AdapterType) -> (r: Option<
        StreamResponse,
    >)
        requires
            old(self).wf(),
            old(self)@.can_receive(chunk_message@, adapter_type),
        ensures
            (final(self)@, opt_chunk(r)) == old(self)@.received(chunk_message@, adapter_type),
            final(self).wf(),
    {
        let ghost before = self@;
        self.active_adapter = Some(adapter_type);
        if self.stream_end {
            if !self.allow_reuse {
                return None;
            }
            self.reset();
            proof {
                assert(self@ == before.again());
                assert(self@.start_queue.len() == 0);
            }
        }
        self.take_part(chunk_message, adapter_type)
    }

    /// Whether a part of a reply can be taken.
    pub fn is_receivable(&self, chunk_message: &str, adapter_type: AdapterType) -> (r: bool)
        requires
            self.wf(),
        ensures
            r == self@.can_receive(chunk_message@, adapter_type),
    {
        if self.stream_end || self.stream_start || self.field_start_queue.len() == 0 {
            return true;
        }
        let open = opening(self.signature_field_name.as_str(), adapter_type);
        let v = chars_of(chunk_message);
        let o = chars_of(open.as_str());
        let n: usize = v.len();
        if adapter_type != AdapterType::JsonAdapter {
            if let Some(p) = find_chars(&v, &o, 0) {
                let after = slice_text(&v, p + o.len(), n);
                proof {
                    assert(after@ =~= chunk_message@.skip(p + o@.len()));
                }
                if end_in(
                    self.signature_field_name.as_str(),
                    adapter_type,
                    after.as_str(),
                ).is_some() {
                    return true;
                }
            }
        }
        proof {
            assert(!self@.is_whole(chunk_message@, adapter_type));
        }
        let mut all = join_parts(&self.field_start_queue);
        all.append(chunk_message);
        proof {
            let q = self@.start_queue;
            assert(q.push(chunk_message@).drop_last() =~= q);
            assert(together(q) + Seq::<char>::empty() + chunk_message@ =~= together(q)
                + chunk_message@);
            assert(all@ == together(q.push(chunk_message@)));
        }
        if contains(all.as_str(), open.as_str()) {
            return true;
        }
        can_scan_back(trim(all.as_str()).as_str(), open.as_str())
    }

    /// Ends the stream: what is left of the field, if anything.
    pub fn finalize(&mut self) -> (r: Option<StreamResponse>)
        requires
            old(self).wf(),
        ensures
            (final(self)@, opt_chunk(r)) == old(self)@.finalized(),
            final(self).wf(),
    {
        if self.stream_end || !self.stream_start {
            return None;
        }
        self.stream_end = true;
        if self.field_end_queue.len() > 0 {
            let token = self.flush();
            if !token.as_str().is_empty() {
                let r = self.response(Some(token));
                return Some(r);
            }
        }
        None
    }

    fn reset(&mut self)
        requires
            old(self).wf(),
        ensures
            final(self)@ == old(self)@.again(),
            final(self).wf(),
    {
        self.stream_end = false;
        self.cache_hit = false;
        self.field_start_queue = Vec::new();
        self.field_end_queue = Vec::new();
        self.stream_start = false;
        self.active_adapter = None;
        proof {
            assert(texts(self.field_start_queue@) =~= Seq::<Seq<char>>::empty());
            assert(texts(self.field_end_queue@) =~= Seq::<Seq<char>>::empty());
        }
    }
}

/// After the end of the field nothing comes of further parts, unless the listener is
/// used again.
pub proof fn law_nothing_after_the_end(l: ListenerSpec, chunk: Seq<char>, a: AdapterType)
    requires
        l.stream_end,
        !l.allow_reuse,
    ensures
        l.received(chunk, a).1 is None,
        l.received(chunk, a).0 == (ListenerSpec { active: Some(a), ..l }),
        l.finalized() == (l, None::<ChunkSpec>),
{
}

/// Text within a field that cannot belong to its end is handed on as it comes.
pub proof fn law_plain_text_is_handed_on(l: ListenerSpec, chunk: Seq<char>, a: AdapterType)
    requires
        l.stream_start,
        !l.stream_end,
        l.end_queue.len() == 0,
        chunk.len() > 0,
        !l.is_whole(chunk, a),
        !may_end(trim_of(chunk), a),
        end_found(l.field, a, trim_of(chunk)) is None,
        end_found(l.field, a, chunk) is None,
    ensures
        l.received(chunk, a) == (
            ListenerSpec { active: Some(a), ..l },
            Some(
                ChunkSpec {
                    predict_name: l.predict_name,
                    field_name: l.field,
                    chunk: Some(chunk),
                    is_last_chunk: false,
                },
            ),
        ),
{
    let m = ListenerSpec { active: Some(a), ..l };
    let q = m.end_queue.push(chunk);
    assert(q =~= seq![chunk]);
    assert(together(q) == chunk);
    assert(m.end_queue =~= Seq::<Seq<char>>::empty());
}

// ---------------------------------------------------------------------------
// A program that streams
// ---------------------------------------------------------------------------

/// What the values of a stream say.
pub open spec fn stream_list(v: Seq<StreamValue>) -> Seq<StreamSpec> {
    v.map_values(|x: StreamValue| x@)
}

/// What was sent while the program ran, without predictions.
pub open spec fn without_results(v: Seq<StreamSpec>) -> Seq<StreamSpec>
    decreases v.len(),
{
    if v.len() == 0 {
        Seq::empty()
    } else if v.last() is Result {
        without_results(v.drop_last())
    } else {
        without_results(v.drop_last()).push(v.last())
    }
}

/// What is left of the fields.
pub open spec fn last_parts(v: Seq<ListenerSpec>) -> Seq<StreamSpec>
    decreases v.len(),
{
    if v.len() == 0 {
        Seq::empty()
    } else {
        match v.last().finalized().1 {
            Some(c) => last_parts(v.drop_last()).push(StreamSpec::Chunk(c)),
            None => last_parts(v.drop_last()),
        }
    }
}

/// What the listeners of a list say.
pub open spec fn listener_list(v: Seq<StreamListener>) -> Seq<ListenerSpec> {
    v.map_values(|l: StreamListener| l@)
}

/// The prediction belongs to the stream: it was asked for, or nobody has heard of it.
pub open spec fn shows_prediction(wanted: bool, v: Seq<ListenerSpec>) -> bool {
    wanted || v.len() == 0 || (exists|i: int| 0 <= i < v.len() && (#[trigger] v[i]).cache_hit) || (
    forall|i: int| 0 <= i < v.len() ==> !(#[trigger] v[i]).stream_start)
}

/// What a program streams.
pub open spec fn streamed(
    module: Seq<char>,
    start: Option<Seq<char>>,
    sent: Seq<StreamSpec>,
    listeners: Seq<ListenerSpec>,
    result: std::result::Result<PredictionSpec, Seq<char>>,
    end: Option<Seq<char>>,
    wanted: bool,
) -> Seq<StreamSpec> {
    let opening = StreamSpec::Status(
        match start {
            Some(m) => m,
            None => "Starting program execution"@,
        },
        Some(module),
    );
    let body = seq![opening] + without_results(sent) + last_parts(listeners);
    match result {
        Ok(p) => {
            let told = match end {
                Some(m) => body.push(StreamSpec::Status(m, Some(module))),
                None => body,
            };
            if shows_prediction(wanted, listeners) {
                told.push(StreamSpec::Result(p))
            } else {
                told
            }
        },
        Err(e) => body.push(StreamSpec::Status("Error: "@ + e, Some(module))),
    }
}

/// What the result of a program says.
pub open spec fn outcome_of(r: Result<Prediction>) -> std::result::Result<
    PredictionSpec,
    Seq<char>,
> {
    match r {
        Ok(p) => Ok(p@),
        Err(e) => Err(e.message_of()),
    }
}

fn push_value(v: &mut Vec<StreamValue>, x: StreamValue)
    ensures
        stream_list(final(v)@) == stream_list(old(v)@).push(x@),
{
    v.push(x);
    proof {
        assert(stream_list(v@) =~= stream_list(old(v)@).push(x@));
    }
}

fn status(message: String, module_name: &str) -> (r: StreamValue)
    ensures
        r@ == StreamSpec::Status(message@, Some(module_name@)),
{
    StreamValue::Status(StatusMessage { message, module_name: Some(module_name.to_owned()) })
}

/// Puts together what a program streams: the opening status, what was sent while it
/// ran, what is left of the fields, and the outcome. The listeners are handed back,
/// at the end of their streams.
pub fn collect_stream(
    module_name: &str,
    start: Option<String>,
    sent: Vec<StreamValue>,
    listeners: Vec<StreamListener>,
    result: Result<Prediction>,
    end: Option<String>,
    include_final_prediction: bool,
) -> (r: (Vec<StreamValue>, Vec<StreamListener>))
    requires
        forall|i: int| 0 <= i < listeners@.len() ==> (#[trigger] listeners@[i]).wf(),
    ensures
        stream_list(r.0@) == streamed(
            module_name@,
            opt_view(start),
            stream_list(sent@),
            listener_list(listeners@),
            outcome_of(result),
            opt_view(end),
            include_final_prediction,
        ),
        r.1@.len() == listeners@.len(),
        forall|i: int|
            0 <= i < r.1@.len() ==> (#[trigger] r.1@[i])@ == listeners@[i]@.finalized().0
                && r.1@[i].wf(),
{
    let ghost all = stream_list(sent@);
    let ghost heard = listener_list(listeners@);
    let mut output: Vec<StreamValue> = Vec::new();
    let opening = match start {
        Some(m) => m,
        None => "Starting program execution".to_string(),
    };
    push_value(&mut output, status(opening, module_name));
    let ghost first = stream_list(output@);
    let ghost given = sent@;
    proof {
        assert(first =~= seq![StreamSpec::Status(opening@, Some(module_name@))]);
        assert(all.take(0) =~= Seq::<StreamSpec>::empty());
        assert(first + without_results(all.take(0)) =~= first);
    }
    for x in it: sent
        invariant
            it.seq() == given,
            all == stream_list(given),
            stream_list(output@) == first + without_results(all.take(it.index() as int)),
    {
        proof {
            let i = it.index() as int;
            assert(all.take(i + 1).drop_last() =~= all.take(i));
            assert(all.take(i + 1).last() == x@);
        }
        let is_result = match &x {
            StreamValue::Result(_) => true,
            _ => false,
        };
        if !is_result {
            let ghost front = without_results(all.take(it.index() as int));
            push_value(&mut output, x);
            proof {
                assert((first + front).push(x@) =~= first + front.push(x@));
            }
        }
    }
    proof {
        assert(all.take(all.len() as int) =~= all);
    }
    let ghost middle = stream_list(output@);
    let ghost ls = listeners@;
    let none = listeners.len() == 0;
    let mut kept: Vec<StreamListener> = Vec::new();
    let mut any_cache_hit = false;
    let mut any_started = false;
    proof {
        assert(heard.take(0) =~= Seq::<ListenerSpec>::empty());
        assert(middle + last_parts(heard.take(0)) =~= middle);
    }
    for l in it: listeners
        invariant
            it.seq() == ls,
            heard == listener_list(ls),
            forall|i: int| 0 <= i < ls.len() ==> (#[trigger] ls[i]).wf(),
            stream_list(output@) == middle + last_parts(heard.take(it.index() as int)),
            kept@.len() == it.index(),
            forall|i: int|
                0 <= i < kept@.len() ==> (#[trigger] kept@[i])@ == ls[i]@.finalized().0
                    && kept@[i].wf(),
            any_cache_hit == exists|i: int|
                0 <= i < it.index() && (#[trigger] heard[i]).cache_hit,
            any_started == exists|i: int|
                0 <= i < it.index() && (#[trigger] heard[i]).stream_start,
    {
        let ghost at = it.index() as int;
        proof {
            assert(heard.take(at + 1).drop_last() =~= heard.take(at));
            assert(heard[at] == l@);
            assert(heard.take(at + 1).last() == l@);
            assert(ls[at].wf());
        }
        let mut listener = l;
        if let Some(c) = listener.finalize() {
            let ghost front = last_parts(heard.take(at));
            push_value(&mut output, StreamValue::Chunk(c));
            proof {
                assert((middle + front).push(StreamSpec::Chunk(c@)) =~= middle + front.push(
                    StreamSpec::Chunk(c@),
                ));
            }
        }
        proof {
            assert(listener@.cache_hit == heard[at].cache_hit);
            assert(listener@.stream_start == heard[at].stream_start);
        }
        any_cache_hit = any_cache_hit || listener.cache_hit;
        any_started = any_started || listener.stream_start;
        kept.push(listener);
    }
    proof {
        assert(heard.take(heard.len() as int) =~= heard);
    }
    match result {
        Ok(p) => {
            if let Some(m) = end {
                push_value(&mut output, status(m, module_name));
            }
            let shows = include_final_prediction || none || any_cache_hit || !any_started;
            proof {
                assert(shows == shows_prediction(include_final_prediction, heard));
            }
            if shows {
                push_value(&mut output, StreamValue::Result(p));
            }
        },
        Err(e) => {
            let mut m = "Error: ".to_string();
            m.append(e.message().as_str());
            push_value(&mut output, status(m, module_name));
        },
    }
    (output, kept)
}

} // verus!
