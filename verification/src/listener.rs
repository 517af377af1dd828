//! The text of a field, as a listener hands it on part by part: up to the end of the
//! field, and nothing of it twice or left out.

use crate::streaming::{
    end_found, end_quote_from, is_literal, marker_at, marker_from, may_end, may_start, quote_ends,
    start_sign, start_text, together, word_run, word_start, xml_pattern, AdapterType, ChunkSpec,
    ListenerSpec,
};
use crate::text::{
    find_first, has_text, is_white, lemma_find_from, occurs_at, trim_end_of, trim_of, trim_start_of,
};
use crate::unicode::word_char;
use vstd::prelude::*;

verus! {

// ---------------------------------------------------------------------------
// Trimming
// ---------------------------------------------------------------------------

proof fn lemma_trim_start(s: Seq<char>) -> (i: int)
    ensures
        0 <= i <= s.len(),
        trim_start_of(s) == s.skip(i),
        forall|k: int| 0 <= k < i ==> is_white(#[trigger] s[k]),
        i < s.len() ==> !is_white(s[i]),
    decreases s.len(),
{
    if s.len() > 0 && is_white(s[0]) {
        let t = s.subrange(1, s.len() as int);
        let j = lemma_trim_start(t);
        assert(t.skip(j) =~= s.skip(j + 1));
        assert forall|k: int| 0 <= k < j + 1 implies is_white(#[trigger] s[k]) by {
            if k > 0 {
                assert(t[k - 1] == s[k]);
            }
        }
        j + 1
    } else {
        assert(s.skip(0) =~= s);
        0
    }
}

/// Trimming takes the white space off the end of a text and nothing else.
pub proof fn lemma_trim_end(s: Seq<char>) -> (j: int)
    ensures
        0 <= j <= s.len(),
        trim_end_of(s) == s.take(j),
        forall|k: int| j <= k < s.len() ==> is_white(#[trigger] s[k]),
        j > 0 ==> !is_white(s[j - 1]),
    decreases s.len(),
{
    if s.len() > 0 && is_white(s.last()) {
        let t = s.drop_last();
        let j = lemma_trim_end(t);
        assert(t.take(j) =~= s.take(j));
        assert forall|k: int| j <= k < s.len() implies is_white(#[trigger] s[k]) by {
            if k < t.len() {
                assert(t[k] == s[k]);
            }
        }
        j
    } else {
        assert(s.take(s.len() as int) =~= s);
        s.len() as int
    }
}

/// Trimming takes the white space off both ends of a text and nothing else.
pub proof fn lemma_trim(s: Seq<char>) -> (r: (int, int))
    ensures
        0 <= r.0 <= r.1 <= s.len(),
        trim_of(s) == s.subrange(r.0, r.1),
        forall|k: int| 0 <= k < s.len() && !is_white(#[trigger] s[k]) ==> r.0 <= k < r.1,
        r.0 < r.1 ==> !is_white(s[r.0]) && !is_white(s[r.1 - 1]),
{
    let i = lemma_trim_start(s);
    let t = s.skip(i);
    let j = lemma_trim_end(t);
    assert(t.take(j) =~= s.subrange(i, i + j));
    assert forall|k: int| 0 <= k < s.len() && !is_white(#[trigger] s[k]) implies i <= k < i + j by {
        if k >= i + j {
            assert(t[k - i] == s[k]);
        }
    }
    if j > 0 {
        assert(t[j - 1] == s[i + j - 1]);
        assert(t[0] == s[i]);
    }
    (i, i + j)
}

proof fn lemma_trim_end_over(a: Seq<char>, b: Seq<char>)
    ensures
        trim_end_of(a + trim_end_of(b)) == trim_end_of(a + b),
    decreases b.len(),
{
    if b.len() > 0 && is_white(b.last()) {
        lemma_trim_end_over(a, b.drop_last());
        assert((a + b).drop_last() =~= a + b.drop_last());
        assert((a + b).last() == b.last());
    }
}

// ---------------------------------------------------------------------------
// The end of a field
// ---------------------------------------------------------------------------

/// A text ends a field: a marker of some field, a quote with a comma or, after white
/// space, a closing brace, or the closing tag.
pub open spec fn is_end(field: Seq<char>, a: AdapterType, w: Seq<char>) -> bool {
    match a {
        AdapterType::ChatAdapter => {
            &&& w.len() > 12
            &&& occurs_at(w, "[[ ## "@, 0)
            &&& occurs_at(w, " ## ]]"@, w.len() - 6)
            &&& forall|i: int| 6 <= i < w.len() - 6 ==> word_char(#[trigger] w[i])
        },
        AdapterType::JsonAdapter => {
            &&& w.len() >= 2
            &&& w[0] == '"'
            &&& (w.len() == 2 && w[1] == ',') || (w.last() == '}' && forall|i: int|
                1 <= i < w.len() - 1 ==> is_white(#[trigger] w[i]))
        },
        AdapterType::XmlAdapter => w == xml_pattern(field),
    }
}

/// What ends a field stands from `x` up to `e`.
pub open spec fn end_between(
    field: Seq<char>,
    a: AdapterType,
    s: Seq<char>,
    x: int,
    e: int,
) -> bool {
    0 <= x <= e <= s.len() && is_end(field, a, s.subrange(x, e))
}

/// What ends a field stands at `x`.
pub open spec fn end_at(field: Seq<char>, a: AdapterType, s: Seq<char>, x: int) -> bool {
    match a {
        AdapterType::ChatAdapter => marker_at(s, x),
        AdapterType::JsonAdapter => quote_ends(s, x),
        AdapterType::XmlAdapter => occurs_at(s, xml_pattern(field), x),
    }
}

/// Where what ends a field first stands: for the JSON adapter the quote, without the
/// word before it.
pub open spec fn end_sign(field: Seq<char>, a: AdapterType, s: Seq<char>) -> Option<int> {
    match a {
        AdapterType::ChatAdapter => marker_from(s, 0),
        AdapterType::JsonAdapter => end_quote_from(s, 0),
        AdapterType::XmlAdapter => find_first(s, xml_pattern(field)),
    }
}

proof fn lemma_word_run(s: Seq<char>, p: int)
    requires
        0 <= p <= s.len(),
    ensures
        p + word_run(s, p) <= s.len(),
        forall|k: int| p <= k < p + word_run(s, p) ==> word_char(#[trigger] s[k]),
        p + word_run(s, p) < s.len() ==> !word_char(s[p + word_run(s, p)]),
    decreases s.len() - p,
{
    if p < s.len() && word_char(s[p]) {
        lemma_word_run(s, p + 1);
    }
}

proof fn lemma_signs()
    ensures
        "[[ ## "@ == seq!['[', '[', ' ', '#', '#', ' '],
        " ## ]]"@ == seq![' ', '#', '#', ' ', ']', ']'],
        "[[ ##"@ == seq!['[', '[', ' ', '#', '#'],
        "[[ #"@ == seq!['[', '[', ' ', '#'],
        "["@ == seq!['['],
        "\""@ == seq!['"'],
        "\","@ == seq!['"', ','],
        "}"@ == seq!['}'],
        "<"@ == seq!['<'],
        "</"@ == seq!['<', '/'],
        ">"@ == seq!['>'],
{
    reveal_strlit("[[ ## ");
    reveal_strlit(" ## ]]");
    reveal_strlit("[[ ##");
    reveal_strlit("[[ #");
    reveal_strlit("[");
    reveal_strlit("\"");
    reveal_strlit("\",");
    reveal_strlit("}");
    reveal_strlit("<");
    reveal_strlit("</");
    reveal_strlit(">");
    assert("[[ ## "@ =~= seq!['[', '[', ' ', '#', '#', ' ']);
    assert(" ## ]]"@ =~= seq![' ', '#', '#', ' ', ']', ']']);
    assert("[[ ##"@ =~= seq!['[', '[', ' ', '#', '#']);
    assert("[[ #"@ =~= seq!['[', '[', ' ', '#']);
    assert("["@ =~= seq!['[']);
    assert("\""@ =~= seq!['"']);
    assert("\","@ =~= seq!['"', ',']);
    assert("}"@ =~= seq!['}']);
    assert("<"@ =~= seq!['<']);
    assert("</"@ =~= seq!['<', '/']);
    assert(">"@ =~= seq!['>']);
}

proof fn lemma_end_reaches(field: Seq<char>, a: AdapterType, s: Seq<char>, x: int) -> (e: int)
    requires
        end_at(field, a, s, x),
    ensures
        end_between(field, a, s, x, e),
{
    lemma_signs();
    match a {
        AdapterType::ChatAdapter => {
            lemma_word_run(s, x + 6);
            let n = word_run(s, x + 6) as int;
            let e = x + 12 + n;
            let w = s.subrange(x, e);
            assert(w.subrange(0, 6) =~= s.subrange(x, x + 6));
            assert(w.subrange(6 + n, 12 + n) =~= s.subrange(x + 6 + n, x + 12 + n));
            assert forall|i: int| 6 <= i < w.len() - 6 implies word_char(#[trigger] w[i]) by {
                assert(w[i] == s[x + i]);
            }
            e
        },
        AdapterType::JsonAdapter => {
            if s[x + 1] == ',' {
                x + 2
            } else {
                let t = s.skip(x + 1);
                let i = lemma_trim_start(t);
                assert(t.skip(i)[0] == t[i]);
                let e = x + i + 2;
                let w = s.subrange(x, e);
                assert(w.last() == t[i]);
                assert forall|k: int| 1 <= k < w.len() - 1 implies is_white(#[trigger] w[k]) by {
                    assert(w[k] == t[k - 1]);
                }
                e
            }
        },
        AdapterType::XmlAdapter => x + xml_pattern(field).len(),
    }
}

proof fn lemma_end_stands(field: Seq<char>, a: AdapterType, s: Seq<char>, x: int, e: int)
    requires
        end_between(field, a, s, x, e),
    ensures
        end_at(field, a, s, x),
{
    lemma_signs();
    let w = s.subrange(x, e);
    match a {
        AdapterType::ChatAdapter => {
            assert(s.subrange(x, x + 6) =~= w.subrange(0, 6));
            assert(s.subrange(e - 6, e) =~= w.subrange(w.len() - 6, w.len() as int));
            lemma_word_run(s, x + 6);
            let n = word_run(s, x + 6) as int;
            assert(w.subrange(w.len() - 6, w.len() as int)[0] == ' ');
            assert(s[e - 6] == w[w.len() - 6]);
            assert(s[e - 6] == ' ');
            if x + 6 + n < e - 6 {
                assert(s[x + 6 + n] == w[6 + n]);
            }
            if x + 6 + n > e - 6 {
                assert(word_char(s[e - 6]));
            }
        },
        AdapterType::JsonAdapter => {
            assert(s[x] == w[0] && s[x + 1] == w[1]);
            if !(w.len() == 2 && w[1] == ',') {
                let t = s.skip(x + 1);
                let i = lemma_trim_start(t);
                let last = e - x - 2;
                assert(t[last] == w.last());
                if i < last {
                    assert(t[i] == w[i + 1]);
                }
                assert(i == last);
                assert(t.skip(i)[0] == t[i]);
            }
        },
        AdapterType::XmlAdapter => {},
    }
}

proof fn lemma_end_is_shown(field: Seq<char>, a: AdapterType, w: Seq<char>)
    requires
        is_end(field, a, w),
    ensures
        w.len() >= 2,
        !is_white(w[0]),
        !is_white(w.last()),
{
    lemma_signs();
    match a {
        AdapterType::ChatAdapter => {
            assert(w.subrange(0, 6)[0] == '[');
            assert(w.subrange(w.len() - 6, w.len() as int)[5] == ']');
        },
        AdapterType::JsonAdapter => {},
        AdapterType::XmlAdapter => {
            assert(w[0] == '<');
            assert(w.last() == '>');
        },
    }
}

proof fn lemma_first_marker(s: Seq<char>, p: int)
    requires
        0 <= p,
    ensures
        match marker_from(s, p) {
            Some(x) => p <= x && marker_at(s, x) && forall|y: int|
                p <= y < x ==> !#[trigger] marker_at(s, y),
            None => forall|y: int| p <= y ==> !#[trigger] marker_at(s, y),
        },
    decreases s.len() - p,
{
    lemma_signs();
    if p < s.len() && !marker_at(s, p) {
        lemma_first_marker(s, p + 1);
    }
}

proof fn lemma_first_quote(s: Seq<char>, p: int)
    requires
        0 <= p,
    ensures
        match end_quote_from(s, p) {
            Some(x) => p <= x && quote_ends(s, x) && forall|y: int|
                p <= y < x ==> !#[trigger] quote_ends(s, y),
            None => forall|y: int| p <= y ==> !#[trigger] quote_ends(s, y),
        },
    decreases s.len() - p,
{
    if p < s.len() && !quote_ends(s, p) {
        lemma_first_quote(s, p + 1);
    }
}

proof fn lemma_first_end(field: Seq<char>, a: AdapterType, s: Seq<char>)
    ensures
        match end_sign(field, a, s) {
            Some(x) => 0 <= x < s.len() && end_at(field, a, s, x) && forall|y: int|
                0 <= y < x ==> !#[trigger] end_at(field, a, s, y),
            None => forall|y: int| 0 <= y ==> !#[trigger] end_at(field, a, s, y),
        },
{
    lemma_signs();
    lemma_first_marker(s, 0);
    lemma_first_quote(s, 0);
    lemma_find_from(s, xml_pattern(field), 0);
    if let Some(x) = end_sign(field, a, s) {
        assert forall|y: int| 0 <= y < x implies !#[trigger] end_at(field, a, s, y) by {
            match a {
                AdapterType::ChatAdapter => {
                    assert(!marker_at(s, y));
                },
                AdapterType::JsonAdapter => {
                    assert(!quote_ends(s, y));
                },
                AdapterType::XmlAdapter => {},
            }
        }
    } else {
        assert forall|y: int| 0 <= y implies !#[trigger] end_at(field, a, s, y) by {
            match a {
                AdapterType::ChatAdapter => {
                    assert(!marker_at(s, y));
                },
                AdapterType::JsonAdapter => {
                    assert(!quote_ends(s, y));
                },
                AdapterType::XmlAdapter => {},
            }
        }
    }
}

/// What ends a field stands in a text where it stands in a stretch of it.
proof fn lemma_end_in_stretch(
    field: Seq<char>,
    a: AdapterType,
    s: Seq<char>,
    i: int,
    j: int,
    x: int,
)
    requires
        0 <= i <= j <= s.len(),
        end_at(field, a, s.subrange(i, j), x),
    ensures
        end_at(field, a, s, x + i),
{
    let t = s.subrange(i, j);
    let e = lemma_end_reaches(field, a, t, x);
    assert(t.subrange(x, e) =~= s.subrange(x + i, e + i));
    lemma_end_stands(field, a, s, x + i, e + i);
}

/// What ends a field in a text and stands within a stretch of it ends it there too.
proof fn lemma_stretch_has_end(
    field: Seq<char>,
    a: AdapterType,
    s: Seq<char>,
    i: int,
    j: int,
    x: int,
    e: int,
)
    requires
        0 <= i <= x,
        e <= j <= s.len(),
        end_between(field, a, s, x, e),
    ensures
        end_at(field, a, s.subrange(i, j), x - i),
{
    let t = s.subrange(i, j);
    assert(t.subrange(x - i, e - i) =~= s.subrange(x, e));
    lemma_end_stands(field, a, t, x - i, e - i);
}

/// The white space around a text does not matter to whether a field ends in it.
proof fn lemma_end_when_trimmed(field: Seq<char>, a: AdapterType, s: Seq<char>)
    ensures
        end_sign(field, a, trim_of(s)) is Some <==> end_sign(field, a, s) is Some,
{
    let (i, j) = lemma_trim(s);
    let t = s.subrange(i, j);
    lemma_first_end(field, a, s);
    lemma_first_end(field, a, t);
    if let Some(x) = end_sign(field, a, t) {
        lemma_end_in_stretch(field, a, s, i, j, x);
        assert(end_at(field, a, s, x + i));
    }
    if let Some(x) = end_sign(field, a, s) {
        let e = lemma_end_reaches(field, a, s, x);
        let w = s.subrange(x, e);
        lemma_end_is_shown(field, a, w);
        assert(w[0] == s[x] && w.last() == s[e - 1]);
        lemma_stretch_has_end(field, a, s, i, j, x, e);
        assert(end_at(field, a, t, x - i));
    }
}

/// The first end of a field is also the first in what follows a place before it.
proof fn lemma_end_further_on(field: Seq<char>, a: AdapterType, s: Seq<char>, d: int, x: int)
    requires
        end_sign(field, a, s) == Some(x),
        0 <= d <= x,
    ensures
        end_sign(field, a, s.skip(d)) == Some(x - d),
{
    let n = s.len() as int;
    assert(s.skip(d) =~= s.subrange(d, n));
    let t = s.skip(d);
    lemma_first_end(field, a, s);
    lemma_first_end(field, a, t);
    let e = lemma_end_reaches(field, a, s, x);
    lemma_stretch_has_end(field, a, s, d, n, x, e);
    assert(end_at(field, a, t, x - d));
    let y = end_sign(field, a, t)->Some_0;
    lemma_end_in_stretch(field, a, s, d, n, y);
    assert(end_at(field, a, s, y + d));
}

/// The listener finds an end where there is one: at its sign, or for the JSON adapter at
/// the word before it.
proof fn lemma_found(field: Seq<char>, a: AdapterType, s: Seq<char>)
    requires
        a == AdapterType::XmlAdapter ==> is_literal(xml_pattern(field)),
    ensures
        match end_sign(field, a, s) {
            Some(x) => {
                &&& 0 <= x < s.len()
                &&& end_found(field, a, s) == Some(
                    if a == AdapterType::JsonAdapter {
                        word_start(s, x)
                    } else {
                        x
                    },
                )
                &&& 0 <= word_start(s, x) <= x
            },
            None => end_found(field, a, s) is None,
        },
{
    lemma_first_end(field, a, s);
    if let Some(x) = end_sign(field, a, s) {
        lemma_word_start(s, x);
    }
}

proof fn lemma_word_start(s: Seq<char>, q: int)
    requires
        0 <= q <= s.len(),
    ensures
        0 <= word_start(s, q) <= q,
    decreases q,
{
    if 0 < q && word_char(s[q - 1]) {
        lemma_word_start(s, q - 1);
    }
}

proof fn lemma_word_start_further_on(s: Seq<char>, d: int, q: int)
    requires
        0 <= d <= q <= s.len(),
    ensures
        word_start(s, q) <= d + word_start(s.skip(d), q - d) <= q,
    decreases q,
{
    let t = s.skip(d);
    if d < q {
        assert(t[q - d - 1] == s[q - 1]);
        if word_char(s[q - 1]) {
            lemma_word_start_further_on(s, d, q - 1);
        }
    } else {
        lemma_word_start(s, q);
    }
}

proof fn lemma_has(s: Seq<char>, n: Seq<char>, p: int)
    requires
        occurs_at(s, n, p),
    ensures
        has_text(s, n),
{
    lemma_find_from(s, n, 0);
}

/// A text that breaks off within what ends a field may go on to the end of it.
proof fn lemma_may_go_on(
    field: Seq<char>,
    a: AdapterType,
    before: Seq<char>,
    w: Seq<char>,
    m: int,
)
    requires
        is_end(field, a, w),
        0 < m <= w.len(),
    ensures
        may_end(trim_of(before + w.take(m)), a),
{
    lemma_signs();
    let all = before + w.take(m);
    let b = before.len() as int;
    let n = all.len() as int;
    let (i, j) = lemma_trim(all);
    let t = all.subrange(i, j);
    assert forall|k: int| 0 <= k < m implies all[b + k] == w[k] by {}
    assert(all[b] == w[0]);
    lemma_end_is_shown(field, a, w);
    assert(i <= b < j);
    match a {
        AdapterType::ChatAdapter => {
            let head = w.subrange(0, 6);
            assert(head[0] == '[' && head[1] == '[' && head[2] == ' ' && head[3] == '#' && head[4]
                == '#');
            if m >= 5 {
                assert(all[b + 4] == '#');
                assert(t.subrange(b - i, b - i + 5) =~= "[[ ##"@);
                lemma_has(t, "[[ ##"@, b - i);
            } else if m == 4 {
                assert(all[b + 3] == '#');
                assert(t.subrange(b - i, b - i + 4) =~= "[[ #"@);
            } else {
                if m >= 2 {
                    assert(all[b + 1] == '[');
                }
                if m == 3 {
                    assert(all[b + 2] == ' ');
                    assert(is_white(' '));
                }
                assert(t.last() == '[');
                assert(t.subrange(t.len() - 1, t.len() as int) =~= "["@);
            }
        },
        AdapterType::JsonAdapter => {
            if m >= 2 && w.len() == 2 && w[1] == ',' {
                assert(all[b + 1] == ',');
                assert(t.subrange(b - i, b - i + 2) =~= "\","@);
            } else if m == w.len() {
                assert(all[n - 1] == '}');
                assert(t.subrange(n - 1 - i, n - i) =~= "}"@);
                lemma_has(t, "}"@, n - 1 - i);
            } else {
                if j > b + 1 {
                    assert(all[j - 1] == w[j - 1 - b]);
                }
                assert(j == b + 1);
                assert(t.subrange(t.len() - 1, t.len() as int) =~= "\""@);
            }
        },
        AdapterType::XmlAdapter => {
            assert(w[0] == '<' && w[1] == '/');
            if m == 1 {
                assert(t.subrange(t.len() - 1, t.len() as int) =~= "<"@);
            } else {
                assert(all[b + 1] == '/');
                assert(t.subrange(b - i, b - i + 2) =~= "</"@);
                lemma_has(t, "</"@, b - i);
            }
        },
    }
}

// ---------------------------------------------------------------------------
// Part by part
// ---------------------------------------------------------------------------

/// What a listener hands on.
pub open spec fn chunk_text(c: Option<ChunkSpec>) -> Seq<char> {
    match c {
        Some(x) => match x.chunk {
            Some(t) => t,
            None => Seq::empty(),
        },
        None => Seq::empty(),
    }
}

/// Where a listener stands after parts that came one after the other, and all that it
/// has handed on of them.
pub open spec fn heard(l: ListenerSpec, parts: Seq<Seq<char>>, a: AdapterType) -> (
    ListenerSpec,
    Seq<char>,
)
    decreases parts.len(),
{
    if parts.len() == 0 {
        (l, Seq::empty())
    } else {
        let (m, t) = heard(l, parts.drop_last(), a);
        let (after, c) = m.received(parts.last(), a);
        (after, t + chunk_text(c))
    }
}

/// As [`heard`], where all that comes is text of the field.
spec fn taken(l: ListenerSpec, ts: Seq<Seq<char>>, a: AdapterType) -> (ListenerSpec, Seq<char>)
    decreases ts.len(),
{
    if ts.len() == 0 {
        (l, Seq::empty())
    } else {
        let (m, t) = taken(l, ts.drop_last(), a);
        let (after, c) = m.with_text(ts.last(), a);
        (after, t + chunk_text(c))
    }
}

proof fn lemma_together_push(q: Seq<Seq<char>>, s: Seq<char>)
    ensures
        together(q.push(s)) == together(q) + s,
{
    assert(q.push(s).drop_last() =~= q);
    assert(together(q.push(s)) =~= together(q) + s);
}

proof fn lemma_together_last(q: Seq<Seq<char>>)
    requires
        q.len() > 0,
    ensures
        together(q) == together(q.drop_last()) + q.last(),
{
    assert(q.drop_last().push(q.last()) =~= q);
    lemma_together_push(q.drop_last(), q.last());
}

proof fn lemma_together_first(q: Seq<Seq<char>>)
    requires
        q.len() > 0,
    ensures
        together(q) == q[0] + together(q.skip(1)),
    decreases q.len(),
{
    if q.len() == 1 {
        assert(q.skip(1) =~= Seq::<Seq<char>>::empty());
        assert(together(q) =~= q[0] + together(q.skip(1)));
    } else {
        lemma_together_first(q.drop_last());
        lemma_together_last(q);
        lemma_together_last(q.skip(1));
        assert(q.skip(1).drop_last() =~= q.drop_last().skip(1));
        assert(together(q) =~= q[0] + together(q.skip(1)));
    }
}

proof fn lemma_together_grows(ts: Seq<Seq<char>>, i: int, j: int)
    requires
        0 <= i <= j <= ts.len(),
    ensures
        together(ts.take(i)).len() <= together(ts.take(j)).len(),
        together(ts.take(j)).take(together(ts.take(i)).len() as int) == together(ts.take(i)),
    decreases j - i,
{
    if i < j {
        lemma_together_grows(ts, i, j - 1);
        assert(ts.take(j).drop_last() =~= ts.take(j - 1));
        lemma_together_last(ts.take(j));
        let n = together(ts.take(i)).len() as int;
        assert(together(ts.take(j)).take(n) =~= together(ts.take(j - 1)).take(n));
    } else {
        let s = together(ts.take(i));
        assert(s.take(s.len() as int) =~= s);
    }
}

/// The last parts that wait reach back at least as far as that many parts do.
spec fn reaches_back(q: Seq<Seq<char>>, ts: Seq<Seq<char>>) -> bool {
    &&& q.len() <= ts.len()
    &&& forall|j: int|
        0 <= j <= q.len() ==> (#[trigger] together(q.skip(q.len() - j))).len() + together(
            ts.take(ts.len() - j),
        ).len() >= together(ts).len()
}

proof fn lemma_reaches_back(q: Seq<Seq<char>>, ts: Seq<Seq<char>>)
    requires
        ts.len() > 0,
        reaches_back(q, ts.drop_last()),
    ensures
        reaches_back(q.push(ts.last()), ts),
        ts.last().len() == 0 ==> reaches_back(q, ts),
{
    let before = ts.drop_last();
    let s = ts.last();
    let more = q.push(s);
    let n = ts.len() as int;
    lemma_together_last(ts);
    assert forall|j: int| 0 <= j <= more.len() implies (#[trigger] together(
        more.skip(more.len() - j),
    )).len() + together(ts.take(n - j)).len() >= together(ts).len() by {
        if j == 0 {
            assert(ts.take(n) =~= ts);
        } else {
            let k = j - 1;
            assert(more.skip(more.len() - j) =~= q.skip(q.len() - k).push(s));
            lemma_together_push(q.skip(q.len() - k), s);
            assert(ts.take(n - j) =~= before.take(before.len() - k));
            assert(together(q.skip(q.len() - k)).len() >= 0);
        }
    }
    if s.len() == 0 {
        assert forall|j: int| 0 <= j <= q.len() implies (#[trigger] together(
            q.skip(q.len() - j),
        )).len() + together(ts.take(n - j)).len() >= together(ts).len() by {
            assert(before.take(before.len() - j) =~= ts.take(n - 1 - j));
            lemma_together_grows(ts, n - 1 - j, n - j);
        }
    }
}

proof fn lemma_reaches_back_less(q: Seq<Seq<char>>, ts: Seq<Seq<char>>)
    requires
        q.len() > 0,
        reaches_back(q, ts),
    ensures
        reaches_back(q.skip(1), ts),
{
    let r = q.skip(1);
    assert forall|j: int| 0 <= j <= r.len() implies (#[trigger] together(
        r.skip(r.len() - j),
    )).len() + together(ts.take(ts.len() - j)).len() >= together(ts).len() by {
        assert(r.skip(r.len() - j) =~= q.skip(q.len() - j));
        assert(together(q.skip(q.len() - j)).len() >= 0);
    }
}

/// A listener within a field.
spec fn within(l: ListenerSpec, a: AdapterType) -> bool {
    &&& l.active == Some(a)
    &&& !l.stream_end
    &&& a == AdapterType::XmlAdapter ==> is_literal(xml_pattern(l.field))
}

/// Before the end of a field comes, all that came was handed on or waits.
#[verifier::rlimit(40)]
proof fn lemma_nothing_lost(l: ListenerSpec, ts: Seq<Seq<char>>, a: AdapterType)
    requires
        within(l, a),
        l.end_queue.len() == 0,
        forall|k: int| 0 <= k <= ts.len() ==> !(#[trigger] taken(l, ts.take(k), a)).0.stream_end,
    ensures
        ({
            let (m, t) = taken(l, ts, a);
            &&& m == (ListenerSpec { end_queue: m.end_queue, ..l })
            &&& t + together(m.end_queue) == together(ts)
            &&& reaches_back(m.end_queue, ts)
            &&& end_sign(l.field, a, together(m.end_queue)) is None
        }),
    decreases ts.len(),
{
    if ts.len() == 0 {
        assert(together(l.end_queue) =~= Seq::<char>::empty());
        assert(ts.take(0) =~= ts);
        assert(l.end_queue.skip(0) =~= l.end_queue);
        lemma_first_end(l.field, a, together(l.end_queue));
    } else {
        let d = ts.drop_last();
        assert forall|k: int| 0 <= k <= d.len() implies !(#[trigger] taken(
            l,
            d.take(k),
            a,
        )).0.stream_end by {
            assert(d.take(k) =~= ts.take(k));
        }
        lemma_nothing_lost(l, d, a);
        let (m, t) = taken(l, d, a);
        let s = ts.last();
        assert(ts.take(ts.len() as int) =~= ts);
        assert(!taken(l, ts, a).0.stream_end);
        lemma_reaches_back(m.end_queue, ts);
        lemma_together_last(ts);
        if s.len() == 0 {
            assert(together(ts) =~= together(d));
            assert(taken(l, ts, a).1 =~= t);
        } else {
            lemma_part_within(m, s, a);
            let q = m.end_queue.push(s);
            let (after, c) = m.with_text(s, a);
            lemma_together_push(m.end_queue, s);
            if after.end_queue.len() == 0 {
                assert(after.end_queue.skip(0) =~= after.end_queue);
                assert(ts.take(ts.len() as int) =~= ts);
            } else if after.end_queue == q.skip(1) {
                lemma_reaches_back_less(q, ts);
            }
            assert(t + chunk_text(c) + together(after.end_queue) =~= t + (chunk_text(c) + together(
                after.end_queue,
            )));
            assert(t + (together(m.end_queue) + s) =~= t + together(m.end_queue) + s);
        }
    }
}

/// What a part does that does not bring the end of the field.
proof fn lemma_part_within(m: ListenerSpec, s: Seq<char>, a: AdapterType)
    requires
        within(m, a),
        s.len() > 0,
        !m.with_text(s, a).0.stream_end,
    ensures
        ({
            let q = m.end_queue.push(s);
            let (after, c) = m.with_text(s, a);
            &&& after == (ListenerSpec { end_queue: after.end_queue, ..m })
            &&& after.end_queue == if !may_end(trim_of(together(q)), a) {
                Seq::empty()
            } else if q.len() > 10 {
                q.skip(1)
            } else {
                q
            }
            &&& end_sign(m.field, a, together(q)) is None
            &&& chunk_text(c) + together(after.end_queue) == together(q)
            &&& end_sign(m.field, a, together(after.end_queue)) is None
        }),
{
    let q = m.end_queue.push(s);
    let all = together(q);
    lemma_found(m.field, a, trim_of(all));
    lemma_found(m.field, a, all);
    lemma_end_when_trimmed(m.field, a, all);
    if !may_end(trim_of(all), a) {
        let none = Seq::<Seq<char>>::empty();
        assert(together(none) =~= Seq::<char>::empty());
        assert(all + together(none) =~= all);
        lemma_first_end(m.field, a, together(none));
    } else if q.len() > 10 {
        lemma_together_first(q);
        assert(together(q.skip(1)) =~= all.skip(q[0].len() as int));
        lemma_none_further_on(m.field, a, all, q[0].len() as int);
    } else {
        assert(Seq::<char>::empty() + all =~= all);
    }
}

proof fn lemma_none_further_on(field: Seq<char>, a: AdapterType, s: Seq<char>, d: int)
    requires
        end_sign(field, a, s) is None,
        0 <= d <= s.len(),
    ensures
        end_sign(field, a, s.skip(d)) is None,
{
    let n = s.len() as int;
    assert(s.skip(d) =~= s.subrange(d, n));
    lemma_first_end(field, a, s);
    lemma_first_end(field, a, s.skip(d));
    if let Some(y) = end_sign(field, a, s.skip(d)) {
        lemma_end_in_stretch(field, a, s, d, n, y);
        assert(end_at(field, a, s, y + d));
    }
}

/// What cannot go on to the end of a field stands before all of it.
proof fn lemma_end_is_later(
    field: Seq<char>,
    a: AdapterType,
    text: Seq<char>,
    x: int,
    from: int,
    end: int,
)
    requires
        0 <= from <= x,
        from <= end <= text.len(),
        end_at(field, a, text, x),
        end_sign(field, a, text.subrange(from, end)) is None,
        !may_end(trim_of(text.subrange(from, end)), a),
    ensures
        end <= x,
{
    let all = text.subrange(from, end);
    if x < end {
        let e = lemma_end_reaches(field, a, text, x);
        if e <= end {
            lemma_stretch_has_end(field, a, text, from, end, x, e);
            lemma_first_end(field, a, all);
            assert(end_at(field, a, all, x - from));
        } else {
            let w = text.subrange(x, e);
            let before = all.take(x - from);
            assert(all =~= before + w.take(end - x));
            lemma_may_go_on(field, a, before, w, end - x);
        }
    }
}

/// Nothing of what ends a field has been handed on before it has come, where it begins
/// within the last ten parts.
#[verifier::rlimit(40)]
proof fn lemma_end_waits(
    l: ListenerSpec,
    ts: Seq<Seq<char>>,
    a: AdapterType,
    text: Seq<char>,
    x: int,
)
    requires
        within(l, a),
        l.end_queue.len() == 0,
        forall|k: int| 0 <= k <= ts.len() ==> !(#[trigger] taken(l, ts.take(k), a)).0.stream_end,
        together(ts).len() <= text.len(),
        text.take(together(ts).len() as int) == together(ts),
        end_at(l.field, a, text, x),
        0 <= x,
        ts.len() >= 10 ==> together(ts.take(ts.len() - 10)).len() <= x,
    ensures
        taken(l, ts, a).1.len() <= x,
    decreases ts.len(),
{
    if ts.len() > 0 {
        let d = ts.drop_last();
        let n = ts.len() as int;
        assert forall|k: int| 0 <= k <= d.len() implies !(#[trigger] taken(
            l,
            d.take(k),
            a,
        )).0.stream_end by {
            assert(d.take(k) =~= ts.take(k));
        }
        assert(ts.take(n - 1) =~= d && ts.take(n) =~= ts);
        lemma_together_grows(ts, n - 1, n);
        assert(text.take(together(d).len() as int) =~= together(ts).take(
            together(d).len() as int,
        ));
        if d.len() >= 10 {
            lemma_together_grows(ts, n - 11, n - 10);
            assert(d.take(d.len() - 10) =~= ts.take(n - 11));
        }
        lemma_end_waits(l, d, a, text, x);
        lemma_nothing_lost(l, d, a);
        lemma_nothing_lost(l, ts, a);
        let (m, t) = taken(l, d, a);
        let s = ts.last();
        let q = m.end_queue.push(s);
        let all = together(q);
        lemma_together_push(m.end_queue, s);
        lemma_together_last(ts);
        assert(t + all =~= together(ts));
        if s.len() > 0 {
            lemma_part_within(m, s, a);
            let (after, c) = m.with_text(s, a);
            assert(taken(l, ts, a) == (after, t + chunk_text(c)));
            let from = t.len() as int;
            let end = together(ts).len() as int;
            if !may_end(trim_of(all), a) {
                assert(text.subrange(from, end) =~= text.take(end).skip(from));
                assert(together(ts).skip(from) =~= all);
                lemma_end_is_later(l.field, a, text, x, from, end);
            } else if q.len() > 10 {
                lemma_ten_at_most(l, d, a);
                lemma_reaches_back(m.end_queue, ts);
                assert(q.skip(q.len() - 10) =~= after.end_queue);
                assert(together(q.skip(q.len() - 10)).len() + together(ts.take(n - 10)).len()
                    >= end);
            } else {
                assert(chunk_text(c).len() == 0);
            }
        }
    }
}

/// At most ten parts wait.
proof fn lemma_ten_at_most(l: ListenerSpec, ts: Seq<Seq<char>>, a: AdapterType)
    requires
        l.end_queue.len() == 0,
    ensures
        taken(l, ts, a).0.end_queue.len() <= 10,
    decreases ts.len(),
{
    if ts.len() > 0 {
        lemma_ten_at_most(l, ts.drop_last(), a);
    }
}

/// The part that brings the end of a field: with it the text up to the end is handed on.
#[verifier::rlimit(40)]
proof fn lemma_ending(l: ListenerSpec, ts: Seq<Seq<char>>, a: AdapterType)
    requires
        within(l, a),
        l.end_queue.len() == 0,
        ts.len() > 0,
        forall|k: int| 0 <= k < ts.len() ==> !(#[trigger] taken(l, ts.take(k), a)).0.stream_end,
        taken(l, ts, a).0.stream_end,
        ts.len() > 10 ==> (end_sign(l.field, a, together(ts)) matches Some(x)
            ==> together(ts.take(ts.len() - 10)).len() <= x),
    ensures
        cut_at_end(l.field, a, together(ts), taken(l, ts, a).1),
{
    let d = ts.drop_last();
    let n = ts.len() as int;
    let text = together(ts);
    assert forall|k: int| 0 <= k <= d.len() implies !(#[trigger] taken(
        l,
        d.take(k),
        a,
    )).0.stream_end by {
        assert(d.take(k) =~= ts.take(k));
    }
    lemma_nothing_lost(l, d, a);
    lemma_ten_at_most(l, d, a);
    let (m, t) = taken(l, d, a);
    let s = ts.last();
    assert(d.take(d.len() as int) =~= d);
    assert(!m.stream_end);
    let q = m.end_queue.push(s);
    let all = together(q);
    let from = t.len() as int;
    lemma_together_push(m.end_queue, s);
    lemma_together_last(ts);
    assert(t + all =~= text);
    assert(text.skip(from) =~= all);
    lemma_ended_by(m, s, a);
    if end_sign(l.field, a, text) is None {
        lemma_none_further_on(l.field, a, text, from);
    }
    let x = end_sign(l.field, a, text)->Some_0;
    lemma_first_end(l.field, a, text);
    assert(ts.take(n - 1) =~= d && ts.take(n) =~= ts);
    lemma_together_grows(ts, n - 1, n);
    if d.len() >= 10 {
        lemma_together_grows(ts, n - 11, n - 10);
        assert(d.take(d.len() - 10) =~= ts.take(n - 11));
    }
    lemma_end_waits(l, d, a, text, x);
    lemma_end_comes(m, ts, a, t, x);
}

proof fn lemma_end_comes(
    m: ListenerSpec,
    ts: Seq<Seq<char>>,
    a: AdapterType,
    t: Seq<char>,
    x: int,
)
    requires
        within(m, a),
        ts.len() > 0,
        ts.last().len() > 0,
        m.end_queue.len() <= 10,
        t + together(m.end_queue) == together(ts.drop_last()),
        reaches_back(m.end_queue, ts.drop_last()),
        end_sign(m.field, a, together(ts)) == Some(x),
        t.len() <= x,
        ts.len() > 10 ==> together(ts.take(ts.len() - 10)).len() <= x,
    ensures
        cut_at_end(
            m.field,
            a,
            together(ts),
            t + chunk_text(m.with_text(ts.last(), a).1),
        ),
{
    let n = ts.len() as int;
    let text = together(ts);
    let s = ts.last();
    let q = m.end_queue.push(s);
    let all = together(q);
    let from = t.len() as int;
    lemma_together_push(m.end_queue, s);
    lemma_together_last(ts);
    assert(t + all =~= text);
    assert(text.skip(from) =~= all);
    lemma_end_further_on(m.field, a, text, from, x);
    lemma_last_part(m, s, a);
    let given = t + chunk_text(m.with_text(s, a).1);
    if may_end(trim_of(all), a) && q.len() > 10 {
        let past = from + q[0].len();
        lemma_together_first(q);
        lemma_reaches_back(m.end_queue, ts);
        assert(q.skip(q.len() - 10) =~= q.skip(1));
        assert(together(q.skip(q.len() - 10)).len() + together(ts.take(n - 10)).len()
            >= text.len());
        assert(past <= x);
        assert(together(q.skip(1)) =~= text.skip(past));
        assert(text.take(past) =~= t + q[0]);
        lemma_cut(m.field, a, text, past, x, t, q[0], given);
    } else {
        assert(text.take(from) =~= t + Seq::<char>::empty());
        lemma_cut(m.field, a, text, from, x, t, Seq::empty(), given);
    }
}

/// Only a part that brings the end of a field ends it.
proof fn lemma_ended_by(m: ListenerSpec, s: Seq<char>, a: AdapterType)
    requires
        within(m, a),
        m.with_text(s, a).0.stream_end,
    ensures
        s.len() > 0,
        end_sign(m.field, a, together(m.end_queue.push(s))) is Some,
{
    let all = together(m.end_queue.push(s));
    lemma_found(m.field, a, trim_of(all));
    lemma_end_when_trimmed(m.field, a, all);
}

/// What is handed on with the part that brings the end of a field.
proof fn lemma_last_part(m: ListenerSpec, s: Seq<char>, a: AdapterType)
    requires
        within(m, a),
        s.len() > 0,
        end_sign(m.field, a, together(m.end_queue.push(s))) is Some,
    ensures
        ({
            let q = m.end_queue.push(s);
            let all = together(q);
            let c = chunk_text(m.with_text(s, a).1);
            if may_end(trim_of(all), a) && q.len() > 10 {
                c == trim_end_of(q[0] + before_end(m.field, a, together(q.skip(1))))
            } else {
                c == trim_end_of(Seq::<char>::empty() + before_end(m.field, a, all))
            }
        }),
{
    let q = m.end_queue.push(s);
    let all = together(q);
    lemma_found(m.field, a, trim_of(all));
    lemma_found(m.field, a, all);
    lemma_end_when_trimmed(m.field, a, all);
    if !may_end(trim_of(all), a) {
        let none = Seq::<Seq<char>>::empty();
        let cut = before_end(m.field, a, all);
        assert(together(none) =~= Seq::<char>::empty());
        lemma_first_end(m.field, a, together(none));
        lemma_found(m.field, a, together(none));
        assert(cut + together(none) =~= Seq::<char>::empty() + cut);
    }
}

/// A text up to where the end of a field is found in it.
spec fn before_end(field: Seq<char>, a: AdapterType, s: Seq<char>) -> Seq<char> {
    match end_found(field, a, s) {
        Some(p) => s.take(p),
        None => s,
    }
}

proof fn lemma_cut(
    field: Seq<char>,
    a: AdapterType,
    text: Seq<char>,
    past: int,
    x: int,
    t: Seq<char>,
    popped: Seq<char>,
    given: Seq<char>,
)
    requires
        a == AdapterType::XmlAdapter ==> is_literal(xml_pattern(field)),
        end_sign(field, a, text) == Some(x),
        0 <= past <= x,
        text.take(past) == t + popped,
        given == t + trim_end_of(popped + before_end(field, a, text.skip(past))),
    ensures
        cut_at_end(field, a, text, given),
{
    let rest = text.skip(past);
    lemma_found(field, a, text);
    lemma_end_further_on(field, a, text, past, x);
    lemma_found(field, a, rest);
    lemma_word_start_further_on(text, past, x);
    let k = past + end_found(field, a, rest)->Some_0;
    let last = rest.take(k - past);
    lemma_trim_end_over(t, popped + last);
    assert(t + (popped + last) =~= text.take(past) + last);
    assert(text.take(past) + last =~= text.take(k));
    assert(is_cut(field, a, text, given, k));
}

/// But for white space at its end, a text is what stands in another before `k`, which is
/// where the end of the field begins.
pub open spec fn is_cut(
    field: Seq<char>,
    a: AdapterType,
    text: Seq<char>,
    given: Seq<char>,
    k: int,
) -> bool {
    &&& end_found(field, a, text) matches Some(e) && e <= k
    &&& end_sign(field, a, text) matches Some(x) && k <= x
    &&& a != AdapterType::JsonAdapter ==> end_found(field, a, text) == Some(k)
    &&& trim_end_of(given) == trim_end_of(text.take(k))
}

/// But for white space at its end, a text is another up to the end of the field. Of the
/// word before the quote that ends a field in JSON any part may be missing.
pub open spec fn cut_at_end(
    field: Seq<char>,
    a: AdapterType,
    text: Seq<char>,
    given: Seq<char>,
) -> bool {
    exists|k: int| #[trigger] is_cut(field, a, text, given, k)
}

impl ListenerSpec {
    /// What of a part is text of the field: all of it within the field, and what follows
    /// the opening where that is complete with the part.
    pub open spec fn field_text(self, chunk: Seq<char>, a: AdapterType) -> Option<Seq<char>> {
        let open = start_text(self.field, a);
        let all = together(self.start_queue.push(chunk));
        if self.stream_start {
            Some(chunk)
        } else if self.start_queue.len() == 0 {
            None
        } else {
            match find_first(all, open) {
                Some(p) => Some(trim_start_of(all.skip(p + open.len()))),
                None => None,
            }
        }
    }

    /// The text of the field in parts of which the first begins it.
    pub open spec fn field_texts(self, parts: Seq<Seq<char>>, a: AdapterType) -> Seq<Seq<char>> {
        parts.update(0, self.field_text(parts[0], a)->Some_0)
    }
}

/// Parts of a reply bring text of a field that has just begun or begins with the first of
/// them. None brings the whole field, and the field does not end before the last.
pub open spec fn fed(l: ListenerSpec, parts: Seq<Seq<char>>, a: AdapterType) -> bool {
    &&& a == AdapterType::XmlAdapter ==> is_literal(xml_pattern(l.field))
    &&& parts.len() > 0
    &&& l.end_queue.len() == 0
    &&& l.field_text(parts[0], a) is Some
    &&& forall|i: int| 0 <= i < parts.len() ==> !l.is_whole(#[trigger] parts[i], a)
    &&& forall|k: int| 0 <= k < parts.len() ==> !(#[trigger] heard(l, parts.take(k), a)).0.stream_end
}

spec fn opened(l: ListenerSpec, a: AdapterType) -> ListenerSpec {
    ListenerSpec {
        active: Some(a),
        stream_start: true,
        start_queue: if l.stream_start {
            l.start_queue
        } else {
            Seq::empty()
        },
        ..l
    }
}

proof fn lemma_keeps(l: ListenerSpec, ts: Seq<Seq<char>>, a: AdapterType)
    ensures
        ({
            let m = taken(l, ts, a).0;
            m == (ListenerSpec { end_queue: m.end_queue, stream_end: m.stream_end, ..l })
        }),
    decreases ts.len(),
{
    if ts.len() > 0 {
        lemma_keeps(l, ts.drop_last(), a);
    }
}

proof fn lemma_heard_is_taken(l: ListenerSpec, parts: Seq<Seq<char>>, a: AdapterType, k: int)
    requires
        fed(l, parts, a),
        1 <= k <= parts.len(),
    ensures
        heard(l, parts.take(k), a) == taken(opened(l, a), l.field_texts(parts, a).take(k), a),
    decreases k,
{
    let ts = l.field_texts(parts, a);
    let o = opened(l, a);
    assert(parts.take(k).drop_last() =~= parts.take(k - 1));
    assert(ts.take(k).drop_last() =~= ts.take(k - 1));
    assert(!heard(l, parts.take(k - 1), a).0.stream_end);
    assert(parts.take(k).last() == parts[k - 1]);
    assert(!l.is_whole(parts[k - 1], a));
    if k == 1 {
        assert(heard(l, parts.take(0), a) == (l, Seq::<char>::empty()));
        assert(taken(o, ts.take(0), a) == (o, Seq::<char>::empty()));
        assert(l.received(parts[0], a) == o.with_text(ts[0], a));
    } else {
        lemma_heard_is_taken(l, parts, a, k - 1);
        lemma_keeps(o, ts.take(k - 1), a);
        let m = taken(o, ts.take(k - 1), a).0;
        assert(m.is_whole(parts[k - 1], a) == l.is_whole(parts[k - 1], a));
        assert(m == (ListenerSpec { active: Some(a), ..m }));
        assert(m.received(parts[k - 1], a) == m.with_text(ts[k - 1], a));
    }
}

proof fn lemma_fed(l: ListenerSpec, parts: Seq<Seq<char>>, a: AdapterType)
    requires
        fed(l, parts, a),
    ensures
        within(opened(l, a), a),
        heard(l, parts, a) == taken(opened(l, a), l.field_texts(parts, a), a),
        forall|k: int|
            0 <= k < parts.len() ==> !(#[trigger] taken(
                opened(l, a),
                l.field_texts(parts, a).take(k),
                a,
            )).0.stream_end,
{
    let ts = l.field_texts(parts, a);
    let o = opened(l, a);
    let n = parts.len() as int;
    assert(parts.take(n) =~= parts && ts.take(n) =~= ts);
    lemma_heard_is_taken(l, parts, a, n);
    assert(heard(l, parts.take(0), a).0 == l);
    assert forall|k: int| 0 <= k < n implies !(#[trigger] taken(
        o,
        ts.take(k),
        a,
    )).0.stream_end by {
        if k > 0 {
            lemma_heard_is_taken(l, parts, a, k);
            assert(!heard(l, parts.take(k), a).0.stream_end);
        }
    }
}

/// Until the end of a field comes, all its text has been handed on or waits. Where no
/// more comes, what waits is handed on, and then all of the text has been.
pub proof fn law_no_text_is_lost(l: ListenerSpec, parts: Seq<Seq<char>>, a: AdapterType)
    requires
        fed(l, parts, a),
        !heard(l, parts, a).0.stream_end,
    ensures
        ({
            let (m, given) = heard(l, parts, a);
            let text = together(l.field_texts(parts, a));
            &&& given + together(m.end_queue) == text
            &&& given + chunk_text(m.finalized().1) == text
            &&& m.finalized().0.stream_end
        }),
{
    lemma_fed(l, parts, a);
    let ts = l.field_texts(parts, a);
    let o = opened(l, a);
    assert(ts.take(ts.len() as int) =~= ts);
    lemma_nothing_lost(o, ts, a);
    let (m, given) = heard(l, parts, a);
    lemma_found(l.field, a, together(m.end_queue));
    assert(m.end_queue.len() == 0 ==> together(m.end_queue) =~= Seq::<char>::empty());
    assert(chunk_text(m.finalized().1) =~= together(m.end_queue));
}

/// Once the end of a field has come, the text of the field up to its end has been handed
/// on, but for white space at its end. What first ends the field begins within the last
/// ten parts: the beginning of one that is spread over more is handed on as text.
pub proof fn law_text_is_handed_on_to_its_end(
    l: ListenerSpec,
    parts: Seq<Seq<char>>,
    a: AdapterType,
)
    requires
        fed(l, parts, a),
        heard(l, parts, a).0.stream_end,
        parts.len() > 10 ==> (end_sign(
            l.field,
            a,
            together(l.field_texts(parts, a)),
        ) matches Some(x) ==> together(l.field_texts(parts, a).take(parts.len() - 10)).len() <= x),
    ensures
        cut_at_end(
            l.field,
            a,
            together(l.field_texts(parts, a)),
            heard(l, parts, a).1,
        ),
{
    lemma_fed(l, parts, a);
    lemma_ending(opened(l, a), l.field_texts(parts, a), a);
}

/// A listener that waits for a field keeps the first part that may begin its opening, and
/// passes over parts that cannot.
pub proof fn law_openings_are_waited_for(l: ListenerSpec, chunk: Seq<char>, a: AdapterType)
    requires
        !l.stream_start,
        !l.stream_end,
        l.start_queue.len() == 0,
        !l.is_whole(chunk, a),
    ensures
        has_text(chunk, start_sign(a)) ==> l.received(chunk, a).0.start_queue == seq![chunk],
        !has_text(chunk, start_sign(a)) ==> l.received(chunk, a).0.start_queue
            == l.start_queue,
        !l.received(chunk, a).0.stream_start,
        l.received(chunk, a).1 is None,
{
    assert(l.start_queue.push(chunk) =~= seq![chunk]);
}

/// Once the opening of a field is complete, the field has begun; until then, and only as
/// long as what came may go on to the opening, it is kept.
pub proof fn law_complete_opening_begins_the_field(
    l: ListenerSpec,
    chunk: Seq<char>,
    a: AdapterType,
)
    requires
        !l.stream_start,
        !l.stream_end,
        l.start_queue.len() > 0,
        !l.is_whole(chunk, a),
    ensures
        ({
            let all = together(l.start_queue.push(chunk));
            let after = l.received(chunk, a).0;
            &&& after.stream_start <==> has_text(all, start_text(l.field, a))
            &&& !has_text(all, start_text(l.field, a)) && may_start(
                trim_of(all),
                start_text(l.field, a),
            ) ==> after.start_queue == l.start_queue.push(chunk)
        }),
{
}

} // verus!
