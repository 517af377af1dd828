//! What trimming, splitting, replacing and sorting texts keeps of them.

use crate::json::float_display;
use crate::json_adapter::is_numeral;
use crate::listener::lemma_trim;
use crate::multi_chain_comparison::first_line_of;
use crate::prompt::{
    lemma_joined_say, lemma_parts_say, lemma_says_itself, lemma_says_nothing, lemma_says_within,
    says,
};
use crate::text::{
    before_of, closed_lines, dec_int, find_first, has_text, insert_of, is_white, join_of,
    lemma_find_from, lemma_split_len, lines_of, occurs_at, replace_of, sorted_of, split_of,
    strip_cr, text_lt, trim_of,
};
use crate::unicode::quoted_of;
use crate::value::{debug_entries, debug_items, debug_list, debug_of, shown, ValueSpec};
use vstd::prelude::*;

verus! {

/// Trimming takes the white space off both ends of a text and nothing else.
pub proof fn law_trimming_takes_white_space(s: Seq<char>)
    ensures
        exists|i: int, j: int| #[trigger] is_trim(s, i, j) && trim_of(s) == s.subrange(i, j),
{
    let (i, j) = lemma_trim(s);
    if i < j {
        assert(trim_of(s)[0] == s[i]);
    }
    assert forall|k: int| 0 <= k < s.len() && !(i <= k < j) implies is_white(
        #[trigger] s[k],
    ) by {}
    assert(is_trim(s, i, j));
}

/// White space stands in a text before `i` and from `j` on, and neither at `i` nor before
/// `j`.
pub open spec fn is_trim(s: Seq<char>, i: int, j: int) -> bool {
    &&& 0 <= i <= j <= s.len()
    &&& forall|k: int| 0 <= k < s.len() && !(i <= k < j) ==> is_white(#[trigger] s[k])
    &&& i < j ==> !is_white(s[i]) && !is_white(s[j - 1])
}

/// The pieces of a text between the separators are those that give it back when they are
/// joined by the separator; none of them holds it.
pub proof fn law_pieces_give_the_text_back(s: Seq<char>, sep: char)
    ensures
        join_of(split_of(s, sep), seq![sep]) == s,
        forall|i: int|
            0 <= i < split_of(s, sep).len() ==> !(#[trigger] split_of(s, sep)[i]).contains(sep),
    decreases s.len(),
{
    let p = split_of(s, sep);
    let one = seq![sep];
    if s.len() == 0 {
        assert(join_of(p, one) =~= s);
    } else {
        let d = s.drop_last();
        let q = split_of(d, sep);
        law_pieces_give_the_text_back(d, sep);
        lemma_split_len(d, sep);
        assert(!q[q.len() - 1].contains(sep));
        if s.last() == sep {
            assert(p.drop_last() =~= q);
            assert(join_of(p, one) =~= d + one + Seq::<char>::empty());
            assert(s =~= d.push(sep));
            assert forall|i: int| 0 <= i < p.len() implies !(#[trigger] p[i]).contains(sep) by {
                if i < q.len() {
                    assert(p[i] == q[i]);
                }
            }
        } else {
            let c = s.last();
            assert(p.drop_last() =~= q.drop_last());
            assert(p.last() == q.last().push(c));
            if q.len() == 1 {
                assert(join_of(q, one) == q[0]);
                assert(join_of(p, one) == p[0]);
                assert(s =~= d.push(c));
            } else {
                let front = join_of(q.drop_last(), one) + one;
                assert(join_of(q, one) =~= front + q.last());
                assert(join_of(p, one) =~= front + q.last().push(c));
                assert(front + q.last().push(c) =~= (front + q.last()).push(c));
                assert(s =~= d.push(c));
            }
            assert forall|i: int| 0 <= i < p.len() implies !(#[trigger] p[i]).contains(sep) by {
                if i < q.len() - 1 {
                    assert(p[i] == q[i]);
                } else {
                    let t = q.last().push(c);
                    if t.contains(sep) {
                        let k = choose|k: int| 0 <= k < t.len() && t[k] == sep;
                        assert(k < q.last().len());
                        assert(q.last()[k] == sep);
                    }
                }
            }
        }
    }
}

proof fn lemma_closed_lines_say(pieces: Seq<Seq<char>>)
    ensures
        says(
            join_of(pieces, seq!['\n']),
            pieces.map_values(|p: Seq<char>| strip_cr(p)),
        ),
    decreases pieces.len(),
{
    let sep = seq!['\n'];
    let f = |p: Seq<char>| strip_cr(p);
    if pieces.len() == 0 {
        lemma_says_nothing(join_of(pieces, sep));
        assert(pieces.map_values(f) =~= Seq::<Seq<char>>::empty());
    } else {
        let d = pieces.drop_last();
        let p = pieces.last();
        lemma_closed_lines_say(d);
        let own = strip_cr(p);
        lemma_says_itself(own);
        lemma_says_within(Seq::empty(), own, seq![own], p.skip(own.len() as int));
        assert(Seq::<char>::empty() + own + p.skip(own.len() as int) =~= p);
        assert(join_of(seq![p], sep) == p);
        lemma_joined_say(d, d.map_values(f), seq![p], seq![own], sep);
        assert(d + seq![p] =~= pieces);
        assert(d.map_values(f) + seq![own] =~= pieces.map_values(f));
    }
}

/// The lines of a text stand in it one after the other, and none holds a line feed. A text
/// that is not empty and holds none is its only line.
pub proof fn law_lines_stand_in_the_text(s: Seq<char>)
    ensures
        forall|i: int| 0 <= i < lines_of(s).len() ==> !(#[trigger] lines_of(s)[i]).contains('\n'),
        s.len() > 0 && !s.contains('\n') ==> lines_of(s) == seq![s],
        says(s, lines_of(s)),
{
    let sep = seq!['\n'];
    let pieces = split_of(s, '\n');
    let all = lines_of(s);
    law_pieces_give_the_text_back(s, '\n');
    lemma_split_len(s, '\n');
    assert forall|i: int| 0 <= i < all.len() implies !(#[trigger] all[i]).contains('\n') by {
        assert(!pieces[i].contains('\n'));
        if i < pieces.len() - 1 {
            assert(all[i] == strip_cr(pieces[i]));
            if all[i].contains('\n') {
                let k = choose|k: int| 0 <= k < all[i].len() && all[i][k] == '\n';
                assert(pieces[i][k] == '\n');
            }
        }
    }
    let d = pieces.drop_last();
    let last = pieces.last();
    lemma_closed_lines_say(d);
    assert(closed_lines(pieces) =~= d.map_values(|p: Seq<char>| strip_cr(p)));
    assert(join_of(seq![last], sep) == last);
    if last.len() == 0 {
        lemma_says_nothing(last);
        lemma_joined_say(d, closed_lines(pieces), seq![last], Seq::empty(), sep);
        assert(closed_lines(pieces) + Seq::<Seq<char>>::empty() =~= all);
    } else {
        lemma_says_itself(last);
        lemma_joined_say(d, closed_lines(pieces), seq![last], seq![last], sep);
        assert(closed_lines(pieces) + seq![last] =~= all);
    }
    assert(d + seq![last] =~= pieces);
    if s.len() > 0 && !s.contains('\n') {
        lemma_one_piece(s, '\n');
        assert(pieces =~= seq![s]);
        assert(all =~= seq![s]);
    }
}

proof fn lemma_one_piece(s: Seq<char>, sep: char)
    requires
        !s.contains(sep),
    ensures
        split_of(s, sep) == seq![s],
    decreases s.len(),
{
    if s.len() == 0 {
        assert(s =~= Seq::<char>::empty());
    } else {
        let d = s.drop_last();
        assert(!d.contains(sep)) by {
            if d.contains(sep) {
                let k = choose|k: int| 0 <= k < d.len() && d[k] == sep;
                assert(s[k] == sep);
            }
        }
        lemma_one_piece(d, sep);
        assert(s[s.len() - 1] != sep);
        assert(seq![d].drop_last().push(d.push(s.last())) =~= seq![s]) by {
            assert(d.push(s.last()) =~= s);
        }
    }
}

/// The first line of a text stands in it; it holds no line feed and has no white space
/// around it. A text of one line without white space around it is its own first line.
pub proof fn law_first_line_stands_in_the_text(s: Seq<char>)
    ensures
        !first_line_of(s).contains('\n'),
        says(s, seq![first_line_of(s)]),
        !s.contains('\n') && trim_of(s) == s ==> first_line_of(s) == s,
{
    let t = trim_of(s);
    let all = lines_of(t);
    let none = Seq::<char>::empty();
    law_lines_stand_in_the_text(t);
    let (i, j) = lemma_trim(s);
    let (a, b) = lemma_trim(none);
    assert(trim_of(none) =~= none);
    if all.len() > 0 {
        let line = all[0];
        let (x, y) = lemma_trim(line);
        let f = line.subrange(x, y);
        assert(!line.contains('\n'));
        assert(!f.contains('\n')) by {
            if f.contains('\n') {
                let k = choose|k: int| 0 <= k < f.len() && f[k] == '\n';
                assert(line[x + k] == '\n');
            }
        }
        let places = choose|places: Seq<int>| #[trigger] crate::prompt::in_a_row(t, all, places);
        let p = places[0];
        assert(occurs_at(t, all[0], p));
        assert(t.subrange(p, p + line.len()) == line);
        let q = i + p + x;
        assert(s.subrange(q, q + f.len()) =~= f) by {
            assert forall|k: int| 0 <= k < f.len() implies s[q + k] == f[k] by {
                assert(f[k] == line[x + k]);
                assert(line[x + k] == t.subrange(p, p + line.len())[x + k]);
                assert(t[p + x + k] == s[i + p + x + k]);
            }
        }
        assert(crate::prompt::in_a_row(s, seq![f], seq![q]));
        if !s.contains('\n') && trim_of(s) == s {
            if s.len() > 0 {
                assert(line == s);
            }
        }
    } else {
        assert(s.subrange(0, 0) =~= none);
        assert(crate::prompt::in_a_row(s, seq![none], seq![0]));
        if trim_of(s) == s && !s.contains('\n') {
            assert(s =~= none);
        }
    }
}

/// What stands before a separator begins the text and does not hold the separator; the
/// separator follows, or else it is the whole text.
pub proof fn law_before_is_the_beginning(s: Seq<char>, sep: Seq<char>)
    requires
        sep.len() > 0,
    ensures
        ({
            let n = before_of(s, sep).len() as int;
            &&& n <= s.len() && before_of(s, sep) == s.take(n)
            &&& n == s.len() || occurs_at(s, sep, n)
            &&& !has_text(before_of(s, sep), sep)
        }),
{
    lemma_find_from(s, sep, 0);
    let b = before_of(s, sep);
    let n = b.len() as int;
    assert(b =~= s.take(n));
    lemma_find_from(b, sep, 0);
    if let Some(q) = find_first(b, sep) {
        assert(s.subrange(q, q + sep.len()) =~= b.subrange(q, q + sep.len()));
        assert(occurs_at(s, sep, q));
    }
}

/// A text and what it becomes when something in it is replaced: the same pieces, joined by
/// the one and by the other, and the pieces do not hold what is replaced.
pub open spec fn is_replaced(
    s: Seq<char>,
    from: Seq<char>,
    to: Seq<char>,
    r: Seq<char>,
    pieces: Seq<Seq<char>>,
) -> bool {
    &&& pieces.len() > 0
    &&& s == join_of(pieces, from)
    &&& r == join_of(pieces, to)
    &&& forall|i: int| 0 <= i < pieces.len() ==> !has_text(#[trigger] pieces[i], from)
}

proof fn lemma_join_first(parts: Seq<Seq<char>>, sep: Seq<char>)
    requires
        parts.len() > 1,
    ensures
        join_of(parts, sep) == parts[0] + sep + join_of(parts.skip(1), sep),
    decreases parts.len(),
{
    let r = parts.skip(1);
    if parts.len() == 2 {
        assert(parts.drop_last() =~= seq![parts[0]]);
        assert(r =~= seq![parts[1]]);
        assert(join_of(parts.drop_last(), sep) == parts[0]);
    } else {
        lemma_join_first(parts.drop_last(), sep);
        assert(parts.drop_last().skip(1) =~= r.drop_last());
        assert(join_of(parts, sep) =~= parts[0] + sep + join_of(r, sep));
    }
}

/// Replacing keeps everything else: a text is pieces that do not hold what is replaced,
/// joined by it, and becomes the same pieces, joined by what takes its place.
pub proof fn law_only_matches_are_replaced(s: Seq<char>, from: Seq<char>, to: Seq<char>)
    requires
        from.len() > 0,
    ensures
        exists|pieces: Seq<Seq<char>>| #[trigger]
            is_replaced(s, from, to, replace_of(s, from, to), pieces),
    decreases s.len(),
{
    lemma_find_from(s, from, 0);
    match find_first(s, from) {
        Some(p) => {
            let rest = s.subrange(p + from.len(), s.len() as int);
            law_only_matches_are_replaced(rest, from, to);
            let after = replace_of(rest, from, to);
            let q = choose|q: Seq<Seq<char>>| #[trigger] is_replaced(rest, from, to, after, q);
            let first = s.subrange(0, p);
            let pieces = seq![first] + q;
            assert(pieces.skip(1) =~= q);
            lemma_join_first(pieces, from);
            lemma_join_first(pieces, to);
            assert(s =~= first + from + rest) by {
                assert(s.subrange(p, p + from.len()) == from);
                assert(s =~= s.subrange(0, p) + s.subrange(p, p + from.len()) + rest);
            }
            lemma_find_from(first, from, 0);
            assert(!has_text(first, from)) by {
                if let Some(k) = find_first(first, from) {
                    assert(s.subrange(k, k + from.len()) =~= first.subrange(k, k + from.len()));
                    assert(occurs_at(s, from, k));
                }
            }
            assert forall|i: int| 0 <= i < pieces.len() implies !has_text(
                #[trigger] pieces[i],
                from,
            ) by {
                if i > 0 {
                    assert(pieces[i] == q[i - 1]);
                }
            }
            assert(is_replaced(s, from, to, replace_of(s, from, to), pieces));
        },
        None => {
            let pieces = seq![s];
            assert(pieces[0] == s);
            assert(join_of(pieces, from) == s && join_of(pieces, to) == s);
            assert(is_replaced(s, from, to, replace_of(s, from, to), pieces));
        },
    }
}

proof fn lemma_code(c: char, d: char)
    ensures
        c as u32 == d as u32 ==> c == d,
{
}

proof fn lemma_text_lt(a: Seq<char>, b: Seq<char>, c: Seq<char>)
    ensures
        text_lt(a, b) ==> !text_lt(b, a),
        !text_lt(b, a) && !text_lt(c, b) ==> !text_lt(c, a),
        !text_lt(a, b) && !text_lt(b, a) ==> a == b,
    decreases a.len() + b.len() + c.len(),
{
    if a.len() > 0 && b.len() > 0 {
        let x = a.subrange(1, a.len() as int);
        let y = b.subrange(1, b.len() as int);
        lemma_code(a[0], b[0]);
        if a[0] == b[0] {
            if c.len() > 0 {
                lemma_text_lt(x, y, c.subrange(1, c.len() as int));
            } else {
                lemma_text_lt(x, y, c);
            }
            if !text_lt(a, b) && !text_lt(b, a) {
                assert(a =~= seq![a[0]] + x);
                assert(b =~= seq![b[0]] + y);
            }
        }
    } else {
        if a.len() == 0 && b.len() == 0 {
            assert(a =~= b);
        }
    }
}

proof fn lemma_inserted(s: Seq<Seq<char>>, x: Seq<char>)
    requires
        forall|i: int, j: int| 0 <= i < j < s.len() ==> !text_lt(s[j], s[i]),
    ensures
        insert_of(s, x).to_multiset() == s.to_multiset().insert(x),
        insert_of(s, x).len() == s.len() + 1,
        forall|i: int, j: int|
            0 <= i < j <= s.len() ==> !text_lt(insert_of(s, x)[j], insert_of(s, x)[i]),
        forall|y: Seq<char>|
            !text_lt(y, x) && (forall|i: int| 0 <= i < s.len() ==> !text_lt(y, #[trigger] s[i]))
                ==> forall|i: int| 0 <= i <= s.len() ==> !text_lt(y, #[trigger] insert_of(s, x)[i]),
    decreases s.len(),
{
    broadcast use vstd::seq_lib::group_to_multiset_ensures;

    let r = insert_of(s, x);
    if s.len() == 0 || !text_lt(x, s.last()) {
        assert forall|i: int, j: int| 0 <= i < j <= s.len() implies !text_lt(r[j], r[i]) by {
            if j == s.len() && i < s.len() - 1 {
                lemma_text_lt(s[i], s.last(), x);
            }
        }
    } else {
        let d = s.drop_last();
        lemma_inserted(d, x);
        let f = insert_of(d, x);
        lemma_text_lt(x, s.last(), x);
        assert(forall|i: int| 0 <= i < d.len() ==> !text_lt(s.last(), #[trigger] d[i]));
        assert forall|i: int, j: int| 0 <= i < j <= s.len() implies !text_lt(r[j], r[i]) by {
            if j == s.len() {
                assert(!text_lt(s.last(), f[i]));
            } else {
                assert(!text_lt(f[j], f[i]));
            }
        }
        assert(s =~= d.push(s.last()));
        assert(r.to_multiset() =~= s.to_multiset().insert(x));
        assert forall|y: Seq<char>|
            !text_lt(y, x) && (forall|i: int|
                0 <= i < s.len() ==> !text_lt(y, #[trigger] s[i])) implies forall|i: int|
            0 <= i <= s.len() ==> !text_lt(y, #[trigger] r[i]) by {
            assert(forall|i: int| 0 <= i < d.len() ==> !text_lt(y, #[trigger] d[i])) by {
                assert forall|i: int| 0 <= i < d.len() implies !text_lt(y, #[trigger] d[i]) by {
                    assert(d[i] == s[i]);
                }
            }
            assert forall|i: int| 0 <= i <= s.len() implies !text_lt(y, #[trigger] r[i]) by {
                if i < s.len() {
                    assert(r[i] == f[i]);
                } else {
                    assert(r[i] == s[s.len() - 1]);
                }
            }
        }
    }
}

/// Sorted texts are the same texts, and none comes before one of an earlier place.
pub proof fn law_sorting_keeps_the_texts(s: Seq<Seq<char>>)
    ensures
        sorted_of(s).to_multiset() == s.to_multiset(),
        sorted_of(s).len() == s.len(),
        forall|i: int, j: int| 0 <= i < j < s.len() ==> !text_lt(sorted_of(s)[j], sorted_of(s)[i]),
    decreases s.len(),
{
    broadcast use vstd::seq_lib::group_to_multiset_ensures;

    if s.len() > 0 {
        let d = s.drop_last();
        law_sorting_keeps_the_texts(d);
        lemma_inserted(sorted_of(d), s.last());
        assert(s =~= d.push(s.last()));
    } else {
        assert(sorted_of(s) =~= s);
    }
}

/// A value that is a text is shown as it is, an integer as its numeral, a truth value as
/// `true` or `false`, nothing as `null`, and a number with a fraction as such a number is
/// displayed. The items of a list and the entries of an object are shown in order.
pub proof fn law_values_are_shown(v: ValueSpec)
    ensures
        v matches ValueSpec::Text(t) ==> shown(v) == t,
        v matches ValueSpec::Integer(n) ==> is_numeral(shown(v), n),
        v == ValueSpec::Bool(true) ==> shown(v) == "true"@,
        v == ValueSpec::Bool(false) ==> shown(v) == "false"@,
        v == ValueSpec::Null ==> shown(v) == "null"@,
        v matches ValueSpec::Float(t) ==> shown(v) == float_display(t),
        v matches ValueSpec::List(items) ==> says(shown(v), debug_items(items)),
        v matches ValueSpec::Object(entries) ==> says(shown(v), debug_entries(entries)),
{
    if let ValueSpec::Integer(n) = v {
        crate::json_adapter::lemma_numeral(n);
    }
    if let ValueSpec::List(items) = v {
        lemma_list_says(items);
    }
    if let ValueSpec::Object(entries) = v {
        lemma_parts_say(debug_entries(entries), ", "@);
        lemma_says_within(
            "{"@,
            join_of(debug_entries(entries), ", "@),
            debug_entries(entries),
            "}"@,
        );
    }
}

/// Within a list every item is shown, in order: a text quoted, and anything else by its kind
/// and its content.
pub proof fn law_every_item_is_shown(items: Seq<ValueSpec>)
    ensures
        debug_items(items).len() == items.len(),
        forall|i: int|
            0 <= i < items.len() ==> debug_items(items)[i] == debug_of(#[trigger] items[i]) && (
            match items[i] {
                ValueSpec::Text(t) => says(debug_items(items)[i], seq![quoted_of(t)]),
                ValueSpec::Integer(n) => says(debug_items(items)[i], seq![dec_int(n)]),
                _ => true,
            }),
    decreases items.len(),
{
    if items.len() > 0 {
        let d = items.drop_last();
        law_every_item_is_shown(d);
        let all = debug_items(items);
        assert forall|i: int| 0 <= i < items.len() implies all[i] == debug_of(#[trigger] items[i])
            && (match items[i] {
            ValueSpec::Text(t) => says(all[i], seq![quoted_of(t)]),
            ValueSpec::Integer(n) => says(all[i], seq![dec_int(n)]),
            _ => true,
        }) by {
            if i < d.len() {
                assert(d[i] == items[i]);
                assert(all[i] == debug_items(d)[i]);
            } else {
                match items[i] {
                    ValueSpec::Text(t) => {
                        lemma_says_itself(quoted_of(t));
                        lemma_says_within("String("@, quoted_of(t), seq![quoted_of(t)], ")"@);
                    },
                    ValueSpec::Integer(n) => {
                        lemma_says_itself(dec_int(n));
                        lemma_says_within("Integer("@, dec_int(n), seq![dec_int(n)], ")"@);
                    },
                    _ => {},
                }
            }
        }
    }
}

proof fn lemma_list_says(items: Seq<ValueSpec>)
    ensures
        says(debug_list(items), debug_items(items)),
{
    lemma_parts_say(debug_items(items), ", "@);
    lemma_says_within("["@, join_of(debug_items(items), ", "@), debug_items(items), "]"@);
}

} // verus!
