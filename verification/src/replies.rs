//! What is taken from replies: under each name what the reply says there, and nothing else.

use crate::adapter::{chat_fields, chat_marked, chat_section};
use crate::json::JsonSpec;
use crate::json_adapter::{braces_end, object_span, picked, plain_text};
use crate::prediction::{field_values, prediction_of};
use crate::signature::{names, SigSpec};
use crate::strmap::StrMap;
use crate::text::{find_first, has_text, lemma_find_from, lemma_find_is, occurs_at, trim_of};
use crate::value::{names_of, pair_value, set_pair, Value, ValueSpec};
use crate::unicode::is_word;
use crate::xml_adapter::{xml_fields, xml_section, xml_tagged};
use vstd::prelude::*;

verus! {

// ---------------------------------------------------------------------------
// Fields by name
// ---------------------------------------------------------------------------

proof fn lemma_set_pair(pairs: Seq<(Seq<char>, ValueSpec)>, name: Seq<char>, v: ValueSpec)
    requires
        names_of(pairs).no_duplicates(),
    ensures
        names_of(set_pair(pairs, name, v)).no_duplicates(),
        pair_value(set_pair(pairs, name, v), name) == Some(v),
        forall|k: Seq<char>|
            k != name ==> #[trigger] pair_value(set_pair(pairs, name, v), k) == pair_value(
                pairs,
                k,
            ),
        set_pair(pairs, name, v).len() > 0,
{
    let r = set_pair(pairs, name, v);
    let a = names_of(pairs);
    let b = names_of(r);
    if a.contains(name) {
        let i = a.index_of(name);
        assert(b =~= a);
        assert forall|k: Seq<char>| k != name implies #[trigger] pair_value(r, k) == pair_value(
            pairs,
            k,
        ) by {
            if a.contains(k) {
                let j = a.index_of(k);
                assert(r[j] == pairs[j]);
            }
        }
    } else {
        assert(b =~= a.push(name));
        assert(b[pairs.len() as int] == name);
        assert(b.contains(name));
        let i = b.index_of(name);
        if i < pairs.len() {
            assert(a[i] == name);
        }
        assert(i == pairs.len());
        assert forall|k: Seq<char>| k != name implies #[trigger] pair_value(r, k) == pair_value(
            pairs,
            k,
        ) by {
            if a.contains(k) {
                let j = a.index_of(k);
                assert(b[j] == k);
                let l = b.index_of(k);
                if l < pairs.len() {
                    assert(a[l] == k);
                } else {
                    assert(b[l] == name);
                }
                assert(l == j);
            } else if b.contains(k) {
                let l = b.index_of(k);
                if l < pairs.len() {
                    assert(a[l] == k);
                }
            }
        }
    }
}

proof fn lemma_contains_last(all: Seq<Seq<char>>, k: Seq<char>)
    requires
        all.len() > 0,
    ensures
        all.contains(k) <==> (all.drop_last().contains(k) || k == all.last()),
{
    let d = all.drop_last();
    if all.contains(k) {
        let i = choose|i: int| 0 <= i < all.len() && all[i] == k;
        if i < d.len() {
            assert(d[i] == k);
        }
    }
    if d.contains(k) {
        let i = choose|i: int| 0 <= i < d.len() && d[i] == k;
        assert(all[i] == k);
    }
    assert(all[all.len() - 1] == all.last());
}

/// Of an object every member that is wanted is taken, its text under its name, and nothing
/// else.
pub proof fn law_wanted_members_are_taken(m: Map<Seq<char>, JsonSpec>, wanted: Seq<Seq<char>>)
    ensures
        names_of(picked(m, wanted)).no_duplicates(),
        forall|k: Seq<char>| #[trigger]
            pair_value(picked(m, wanted), k) == if wanted.contains(k) && m.contains_key(k) {
                Some(ValueSpec::Text(plain_text(m[k])))
            } else {
                None
            },
    decreases wanted.len(),
{
    if wanted.len() == 0 {
        assert(names_of(picked(m, wanted)) =~= Seq::<Seq<char>>::empty());
    } else {
        let d = wanted.drop_last();
        let name = wanted.last();
        law_wanted_members_are_taken(m, d);
        if m.contains_key(name) {
            lemma_set_pair(picked(m, d), name, ValueSpec::Text(plain_text(m[name])));
        }
        assert forall|k: Seq<char>| #[trigger] pair_value(picked(m, wanted), k) == if wanted.contains(
            k,
        ) && m.contains_key(k) {
            Some(ValueSpec::Text(plain_text(m[k])))
        } else {
            None
        } by {
            lemma_contains_last(wanted, k);
        }
    }
}

/// The text of a section as a value.
pub open spec fn section_value(s: Option<Seq<char>>) -> Option<ValueSpec> {
    match s {
        Some(t) => Some(ValueSpec::Text(t)),
        None => None,
    }
}

/// Of a reply with markers every section that is wanted is taken under its name, and
/// nothing else. Where there is none, the whole reply without the white space around it is
/// the first that is wanted.
pub proof fn law_wanted_sections_are_taken(output: Seq<char>, wanted: Seq<Seq<char>>)
    ensures
        names_of(chat_marked(output, wanted)).no_duplicates(),
        forall|k: Seq<char>| #[trigger]
            pair_value(chat_marked(output, wanted), k) == if wanted.contains(k) {
                section_value(chat_section(output, k))
            } else {
                None
            },
        (exists|i: int| 0 <= i < wanted.len() && chat_section(output, #[trigger] wanted[i]) is Some)
            ==> chat_fields(output, wanted) == chat_marked(output, wanted),
        wanted.len() > 0 && (forall|i: int|
            0 <= i < wanted.len() ==> chat_section(output, #[trigger] wanted[i]) is None)
            ==> chat_fields(output, wanted) == seq![(wanted[0], ValueSpec::Text(trim_of(output)))],
    decreases wanted.len(),
{
    let all = chat_marked(output, wanted);
    if wanted.len() == 0 {
        assert(names_of(all) =~= Seq::<Seq<char>>::empty());
    } else {
        let d = wanted.drop_last();
        let name = wanted.last();
        law_wanted_sections_are_taken(output, d);
        if let Some(v) = chat_section(output, name) {
            lemma_set_pair(chat_marked(output, d), name, ValueSpec::Text(v));
        }
        assert forall|k: Seq<char>| #[trigger] pair_value(all, k) == if wanted.contains(k) {
            section_value(chat_section(output, k))
        } else {
            None
        } by {
            lemma_contains_last(wanted, k);
        }
        if exists|i: int|
            0 <= i < wanted.len() && chat_section(output, #[trigger] wanted[i]) is Some {
            let i = choose|i: int|
                0 <= i < wanted.len() && chat_section(output, #[trigger] wanted[i]) is Some;
            assert(wanted.contains(wanted[i]));
            assert(pair_value(all, wanted[i]) is Some);
            assert(all.len() > 0) by {
                assert(names_of(all).contains(wanted[i]));
            }
        } else {
            if all.len() > 0 {
                let k = all[0].0;
                assert(names_of(all)[0] == k);
                assert(names_of(all).contains(k));
                assert(pair_value(all, k) is Some);
                let i = choose|i: int| 0 <= i < wanted.len() && wanted[i] == k;
                assert(chat_section(output, wanted[i]) is None);
            }
        }
    }
}

/// Of a reply with tags every tagged text that is wanted is taken under its name, and
/// nothing else. Where there is none, the whole reply without the white space around it is
/// the first that is wanted.
pub proof fn law_wanted_tags_are_taken(output: Seq<char>, wanted: Seq<Seq<char>>)
    ensures
        names_of(xml_tagged(output, wanted)).no_duplicates(),
        forall|k: Seq<char>| #[trigger]
            pair_value(xml_tagged(output, wanted), k) == if wanted.contains(k) {
                section_value(xml_section(output, k))
            } else {
                None
            },
        (exists|i: int| 0 <= i < wanted.len() && xml_section(output, #[trigger] wanted[i]) is Some)
            ==> xml_fields(output, wanted) == xml_tagged(output, wanted),
        wanted.len() > 0 && (forall|i: int|
            0 <= i < wanted.len() ==> xml_section(output, #[trigger] wanted[i]) is None)
            ==> xml_fields(output, wanted) == seq![(wanted[0], ValueSpec::Text(trim_of(output)))],
    decreases wanted.len(),
{
    let all = xml_tagged(output, wanted);
    if wanted.len() == 0 {
        assert(names_of(all) =~= Seq::<Seq<char>>::empty());
    } else {
        let d = wanted.drop_last();
        let name = wanted.last();
        law_wanted_tags_are_taken(output, d);
        if let Some(v) = xml_section(output, name) {
            lemma_set_pair(xml_tagged(output, d), name, ValueSpec::Text(v));
        }
        assert forall|k: Seq<char>| #[trigger] pair_value(all, k) == if wanted.contains(k) {
            section_value(xml_section(output, k))
        } else {
            None
        } by {
            lemma_contains_last(wanted, k);
        }
        if exists|i: int|
            0 <= i < wanted.len() && xml_section(output, #[trigger] wanted[i]) is Some {
            let i = choose|i: int|
                0 <= i < wanted.len() && xml_section(output, #[trigger] wanted[i]) is Some;
            assert(wanted.contains(wanted[i]));
            assert(pair_value(all, wanted[i]) is Some);
            assert(all.len() > 0) by {
                assert(names_of(all).contains(wanted[i]));
            }
        } else {
            if all.len() > 0 {
                let k = all[0].0;
                assert(names_of(all)[0] == k);
                assert(names_of(all).contains(k));
                assert(pair_value(all, k) is Some);
                let i = choose|i: int| 0 <= i < wanted.len() && wanted[i] == k;
                assert(xml_section(output, wanted[i]) is None);
            }
        }
    }
}

// ---------------------------------------------------------------------------
// Sections
// ---------------------------------------------------------------------------

/// A text stands in another at the first place where it is, which is `p`.
pub open spec fn first_stands(s: Seq<char>, n: Seq<char>, p: int) -> bool {
    occurs_at(s, n, p) && forall|j: int| 0 <= j < p ==> !#[trigger] occurs_at(s, n, j)
}

/// The section of a name in a reply is what stands between its marker, where that first is,
/// and the next marker, or the end of the reply, without the white space around it. There
/// is none where the marker is not.
pub proof fn law_section_stands_between_markers(
    before: Seq<char>,
    name: Seq<char>,
    body: Seq<char>,
    rest: Seq<char>,
)
    requires
        ({
            let marker = "[[ ## "@ + name + " ## ]]"@;
            &&& first_stands(before + marker + body + rest, marker, before.len() as int)
            &&& forall|j: int|
                0 <= j < body.len() ==> !#[trigger] occurs_at(body + rest, "[[ ## "@, j)
            &&& rest.len() == 0 || (occurs_at(rest, "[[ ## "@, 0) && has_text(rest, " ## ]]"@))
        }),
    ensures
        chat_section(before + ("[[ ## "@ + name + " ## ]]"@) + body + rest, name) == Some(
            trim_of(body),
        ),
{
    let marker = "[[ ## "@ + name + " ## ]]"@;
    let sign = "[[ ## "@;
    let output = before + marker + body + rest;
    let p = before.len() as int;
    reveal_strlit("[[ ## ");
    reveal_strlit(" ## ]]");
    lemma_find_is(output, marker, 0, p);
    let after = output.skip(p + marker.len());
    assert(after =~= body + rest);
    let n = body.len() as int;
    lemma_find_from(after, sign, 0);
    if rest.len() == 0 {
        assert(find_first(after, sign) is None) by {
            if let Some(j) = find_first(after, sign) {
                assert(j < n);
            }
        }
        assert(after =~= body);
    } else {
        assert(after.subrange(n, n + sign.len()) =~= rest.subrange(0, sign.len() as int));
        assert(occurs_at(after, sign, n));
        lemma_find_is(after, sign, 0, n);
        assert(after.skip(n) =~= rest);
        assert(after.take(n) =~= body);
    }
}

/// Without its marker a name has no section.
pub proof fn law_no_marker_no_section(output: Seq<char>, name: Seq<char>)
    requires
        forall|j: int|
            0 <= j ==> !#[trigger] occurs_at(output, "[[ ## "@ + name + " ## ]]"@, j),
    ensures
        chat_section(output, name) is None,
{
    lemma_find_from(output, "[[ ## "@ + name + " ## ]]"@, 0);
}

/// The tagged text of a name in a reply is what stands between its tag, where that first
/// is, and the next closing tag, without the white space around it.
pub proof fn law_tagged_text_stands_between_tags(
    before: Seq<char>,
    name: Seq<char>,
    body: Seq<char>,
    rest: Seq<char>,
)
    requires
        is_word(name),
        ({
            let open = "<"@ + name + ">"@;
            let close = "</"@ + name + ">"@;
            let output = before + open + body + close + rest;
            &&& first_stands(output, open, before.len() as int)
            &&& forall|j: int|
                before.len() + open.len() <= j < before.len() + open.len() + body.len()
                    ==> !#[trigger] occurs_at(output, close, j)
        }),
    ensures
        xml_section(
            before + ("<"@ + name + ">"@) + body + ("</"@ + name + ">"@) + rest,
            name,
        ) == Some(trim_of(body)),
{
    let open = "<"@ + name + ">"@;
    let close = "</"@ + name + ">"@;
    let output = before + open + body + close + rest;
    let p = before.len() as int;
    lemma_find_is(output, open, 0, p);
    let start = p + open.len();
    let c = start + body.len();
    assert(output.subrange(c, c + close.len()) =~= close);
    lemma_find_is(output, close, start, c);
    assert(output.subrange(start, c) =~= body);
}

// ---------------------------------------------------------------------------
// Objects in replies
// ---------------------------------------------------------------------------

/// How many more braces are opened than closed.
pub open spec fn open_braces(s: Seq<char>) -> int
    decreases s.len(),
{
    if s.len() == 0 {
        0
    } else if s.last() == '{' {
        open_braces(s.drop_last()) + 1
    } else if s.last() == '}' {
        open_braces(s.drop_last()) - 1
    } else {
        open_braces(s.drop_last())
    }
}

proof fn lemma_braces(s: Seq<char>, p: int, i: int, depth: nat)
    requires
        0 <= p <= i <= s.len(),
        open_braces(s.subrange(p, i)) == depth,
        i > p ==> depth > 0,
        i == p ==> i < s.len() && s[i] == '{',
        forall|k: int| p < k <= i ==> open_braces(#[trigger] s.subrange(p, k)) > 0,
    ensures
        braces_end(s, i, depth) matches Some(e) ==> {
            &&& p < e <= s.len()
            &&& open_braces(s.subrange(p, e)) == 0
            &&& forall|k: int| p < k < e ==> open_braces(#[trigger] s.subrange(p, k)) > 0
        },
    decreases s.len() - i,
{
    if i < s.len() {
        let t = s.subrange(p, i + 1);
        assert(t.drop_last() =~= s.subrange(p, i));
        assert(t.last() == s[i]);
        if s[i] == '{' {
            lemma_braces(s, p, i + 1, depth + 1);
        } else if s[i] == '}' {
            if depth > 1 {
                lemma_braces(s, p, i + 1, (depth - 1) as nat);
            }
        } else {
            lemma_braces(s, p, i + 1, depth);
        }
    }
}

/// The object that is looked for in a reply begins with the first brace and ends where as
/// many braces are closed as were opened, for the first time.
pub proof fn law_object_ends_with_its_brace(s: Seq<char>)
    ensures
        object_span(s) matches Some(t) ==> exists|p: int, e: int|
            #[trigger] is_balanced(s, p, e) && t == s.subrange(p, e),
        object_span(s) is Some ==> has_text(s, seq!['{']),
{
    lemma_find_from(s, seq!['{'], 0);
    if let Some(p) = find_first(s, seq!['{']) {
        assert(s.subrange(p, p + 1)[0] == '{');
        assert(s.subrange(p, p) =~= Seq::<char>::empty());
        lemma_braces(s, p, p, 0);
        if let Some(e) = braces_end(s, p, 0) {
            assert forall|k: int| 0 <= k < p implies #[trigger] s[k] != '{' by {
                if s[k] == '{' {
                    assert(s.subrange(k, k + 1) =~= seq!['{']);
                    assert(occurs_at(s, seq!['{'], k));
                }
            }
            assert(is_balanced(s, p, e));
        }
    }
}

/// The first brace of a text is at `p`, and the braces that are opened from there on are
/// all closed for the first time at `e`.
pub open spec fn is_balanced(s: Seq<char>, p: int, e: int) -> bool {
    &&& 0 <= p < e <= s.len()
    &&& s[p] == '{'
    &&& forall|k: int| 0 <= k < p ==> #[trigger] s[k] != '{'
    &&& open_braces(s.subrange(p, e)) == 0
    &&& forall|k: int| p < k < e ==> open_braces(#[trigger] s.subrange(p, k)) > 0
}

// ---------------------------------------------------------------------------
// Predictions
// ---------------------------------------------------------------------------

proof fn lemma_field_values(list: Seq<StrMap<Value>>, k: Seq<char>)
    requires
        forall|i: int| 0 <= i < list.len() ==> (#[trigger] list[i])@.contains_key(k),
    ensures
        field_values(list, k).len() == list.len(),
        forall|i: int|
            0 <= i < list.len() ==> field_values(list, k)[i] == (#[trigger] list[i])@[k]@,
    decreases list.len(),
{
    if list.len() > 0 {
        let d = list.drop_last();
        assert forall|i: int| 0 <= i < d.len() implies (#[trigger] d[i])@.contains_key(k) by {
            assert(d[i] == list[i]);
        }
        lemma_field_values(d, k);
        assert(list[list.len() - 1]@.contains_key(k));
        assert forall|i: int| 0 <= i < list.len() implies field_values(list, k)[i]
            == (#[trigger] list[i])@[k]@ by {
            if i < d.len() {
                assert(d[i] == list[i]);
            }
        }
    }
}

/// A prediction has the fields of its first completion, and of every output that all
/// completions have, all its values in order.
pub proof fn law_prediction_holds_the_completions(list: Seq<StrMap<Value>>, s: SigSpec)
    requires
        list.len() > 0,
    ensures
        ({
            let p = prediction_of(list, Some(s));
            &&& forall|k: Seq<char>| #[trigger]
                p.example.store.contains_key(k) <==> list[0]@.contains_key(k)
            &&& forall|k: Seq<char>| #[trigger]
                list[0]@.contains_key(k) ==> p.example.store[k] == list[0]@[k]@
            &&& forall|j: int|
                #![trigger s.outputs()[j]]
                0 <= j < s.outputs().len() && (forall|i: int|
                    0 <= i < list.len() ==> (#[trigger] list[i])@.contains_key(
                        s.outputs()[j].name,
                    )) ==> {
                    let k = s.outputs()[j].name;
                    &&& p.completions.contains_key(k)
                    &&& p.completions[k].len() == list.len()
                    &&& forall|i: int|
                        0 <= i < list.len() ==> p.completions[k][i] == (#[trigger] list[i])@[k]@
                }
        }),
{
    let p = prediction_of(list, Some(s));
    assert forall|j: int|
        #![trigger s.outputs()[j]]
        0 <= j < s.outputs().len() && (forall|i: int|
            0 <= i < list.len() ==> (#[trigger] list[i])@.contains_key(
                s.outputs()[j].name,
            )) implies {
        let k = s.outputs()[j].name;
        &&& p.completions.contains_key(k)
        &&& p.completions[k].len() == list.len()
        &&& forall|i: int|
            0 <= i < list.len() ==> p.completions[k][i] == (#[trigger] list[i])@[k]@
    } by {
        let k = s.outputs()[j].name;
        assert(names(s.outputs())[j] == k);
        lemma_field_values(list, k);
    }
}

} // verus!
