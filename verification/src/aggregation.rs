//! Majority voting over completions.

use crate::strmap::StrMap;
use crate::text::{chars_of, is_white, is_whitespace, join, join_of, push_text, same, texts};
use crate::unicode::{
    all_ascii, alnum, ascii_alnum, ascii_lower, ascii_lowered, is_alphanumeric, lower_of,
    to_lowercase,
};
use vstd::prelude::*;

verus! {

/// The characters that `keep` takes or that are white space.
pub open spec fn kept_chars(s: Seq<char>, keep: spec_fn(char) -> bool) -> Seq<char>
    decreases s.len(),
{
    if s.len() == 0 {
        Seq::empty()
    } else if keep(s.last()) || is_white(s.last()) {
        kept_chars(s.drop_last(), keep).push(s.last())
    } else {
        kept_chars(s.drop_last(), keep)
    }
}

/// The words that are closed by white space.
pub open spec fn closed_words(s: Seq<char>) -> Seq<Seq<char>>
    decreases s.len(),
{
    if s.len() == 0 {
        Seq::empty()
    } else if is_white(s.last()) && open_word(s.drop_last()).len() > 0 {
        closed_words(s.drop_last()).push(open_word(s.drop_last()))
    } else {
        closed_words(s.drop_last())
    }
}

/// What stands after the last white space.
pub open spec fn open_word(s: Seq<char>) -> Seq<char>
    decreases s.len(),
{
    if s.len() == 0 || is_white(s.last()) {
        Seq::empty()
    } else {
        open_word(s.drop_last()).push(s.last())
    }
}

/// The words between white space.
pub open spec fn words_of(s: Seq<char>) -> Seq<Seq<char>> {
    if open_word(s).len() > 0 {
        closed_words(s).push(open_word(s))
    } else {
        closed_words(s)
    }
}

/// The words of a text, parted by one space each, of the characters that `keep` takes;
/// nothing where no word is left.
pub open spec fn normal_form(s: Seq<char>, keep: spec_fn(char) -> bool) -> Option<Seq<char>> {
    let r = join_of(words_of(kept_chars(s, keep)), " "@);
    if r.len() == 0 {
        None
    } else {
        Some(r)
    }
}

/// A text in lower case without punctuation, its words parted by one space each.
pub open spec fn normal_of(s: Seq<char>) -> Option<Seq<char>> {
    normal_form(lower_of(s), |c: char| alnum(c))
}

/// An ASCII text in lower case without punctuation, its words parted by one space each.
pub open spec fn ascii_normal_of(s: Seq<char>) -> Option<Seq<char>> {
    normal_form(ascii_lowered(s), |c: char| ascii_alnum(c))
}

/// The characters that are alphanumeric or white space.
fn keep_chars(s: &str) -> (r: Vec<char>)
    ensures
        r@ == kept_chars(s@, |c: char| alnum(c)),
        all_ascii(s@) ==> r@ == kept_chars(s@, |c: char| ascii_alnum(c)),
{
    let v = chars_of(s);
    let ghost all = s@;
    let ghost keep = |c: char| alnum(c);
    let ghost keep_ascii = |c: char| ascii_alnum(c);
    let mut r: Vec<char> = Vec::new();
    let mut i: usize = 0;
    proof {
        assert(all.take(0) =~= Seq::<char>::empty());
    }
    while i < v.len()
        invariant
            i <= v.len(),
            v@ == all,
            keep == |c: char| alnum(c),
            keep_ascii == |c: char| ascii_alnum(c),
            r@ == kept_chars(all.take(i as int), keep),
            all_ascii(all) ==> r@ == kept_chars(all.take(i as int), keep_ascii),
        decreases v.len() - i,
    {
        proof {
            assert(all.take(i + 1).drop_last() =~= all.take(i as int));
            assert(all.take(i + 1).last() == v@[i as int]);
        }
        if is_alphanumeric(v[i]) || is_whitespace(v[i]) {
            r.push(v[i]);
        }
        i = i + 1;
    }
    proof {
        assert(all.take(i as int) =~= all);
    }
    r
}

/// The words between white space.
fn split_words(v: &Vec<char>) -> (r: Vec<String>)
    ensures
        texts(r@) == words_of(v@),
{
    let ghost all = v@;
    let mut done: Vec<String> = Vec::new();
    let mut word = String::new();
    let mut filled = false;
    let mut i: usize = 0;
    proof {
        assert(all.take(0) =~= Seq::<char>::empty());
        assert(texts(done@) =~= Seq::<Seq<char>>::empty());
    }
    while i < v.len()
        invariant
            i <= v.len(),
            v@ == all,
            texts(done@) == closed_words(all.take(i as int)),
            word@ == open_word(all.take(i as int)),
            filled == (word@.len() > 0),
        decreases v.len() - i,
    {
        proof {
            assert(all.take(i + 1).drop_last() =~= all.take(i as int));
            assert(all.take(i + 1).last() == v@[i as int]);
        }
        if is_whitespace(v[i]) {
            if filled {
                push_text(&mut done, word);
                word = String::new();
                filled = false;
            }
        } else {
            word.push(v[i]);
            filled = true;
        }
        i = i + 1;
    }
    proof {
        assert(all.take(i as int) =~= all);
    }
    if filled {
        push_text(&mut done, word);
    }
    done
}

/// What an optional text says.
pub open spec fn opt_said(s: Option<String>) -> Option<Seq<char>> {
    match s {
        Some(t) => Some(t@),
        None => None,
    }
}

/// A text in lower case without punctuation, its words parted by one space each;
/// nothing where no word is left.
pub fn default_normalize(s: &str) -> (r: Option<String>)
    ensures
        opt_said(r) == normal_of(s@),
        all_ascii(s@) ==> opt_said(r) == ascii_normal_of(s@),
{
    let lowered = to_lowercase(s);
    proof {
        if all_ascii(s@) {
            assert(lowered@ =~= ascii_lowered(s@));
        }
    }
    let words = split_words(&keep_chars(lowered.as_str()));
    let r = join(&words, " ");
    if r.as_str().is_empty() {
        None
    } else {
        Some(r)
    }
}

// ---------------------------------------------------------------------------
// Normal forms
// ---------------------------------------------------------------------------

/// A character of a word: one that `keep` takes and that is not white space.
pub open spec fn word_letter(c: char, keep: spec_fn(char) -> bool) -> bool {
    keep(c) && !is_white(c)
}

/// A text is made of words with one space between two of them, and none at an end.
pub open spec fn is_spaced(t: Seq<char>, keep: spec_fn(char) -> bool) -> bool {
    &&& t.len() > 0
    &&& t[0] != ' '
    &&& t.last() != ' '
    &&& forall|i: int| 0 <= i < t.len() ==> (#[trigger] t[i]) == ' ' || word_letter(t[i], keep)
    &&& forall|i: int| 0 <= i < t.len() - 1 ==> !((#[trigger] t[i]) == ' ' && t[i + 1] == ' ')
}

/// Every character of `t` is a space or stands in `s`.
spec fn drawn_from(t: Seq<char>, s: Seq<char>) -> bool {
    forall|i: int| 0 <= i < t.len() ==> (#[trigger] t[i]) == ' ' || s.contains(t[i])
}

proof fn lemma_kept(s: Seq<char>, keep: spec_fn(char) -> bool)
    ensures
        forall|c: char| #[trigger]
            kept_chars(s, keep).contains(c) <==> s.contains(c) && (keep(c) || is_white(c)),
    decreases s.len(),
{
    let k = kept_chars(s, keep);
    if s.len() > 0 {
        let d = s.drop_last();
        let kd = kept_chars(d, keep);
        lemma_kept(d, keep);
        assert(s =~= d.push(s.last()));
        assert forall|c: char| #[trigger]
            k.contains(c) <==> s.contains(c) && (keep(c) || is_white(c)) by {
            assert(s.contains(c) <==> d.contains(c) || c == s.last()) by {
                if d.contains(c) {
                    let i = choose|i: int| 0 <= i < d.len() && d[i] == c;
                    assert(s[i] == c);
                }
                if s.contains(c) && c != s.last() {
                    let i = choose|i: int| 0 <= i < s.len() && s[i] == c;
                    assert(d[i] == c);
                }
                assert(s[s.len() - 1] == s.last());
            }
            if k.len() > kd.len() {
                assert(k.contains(c) <==> kd.contains(c) || c == s.last()) by {
                    if kd.contains(c) {
                        let i = choose|i: int| 0 <= i < kd.len() && kd[i] == c;
                        assert(k[i] == c);
                    }
                    if k.contains(c) && c != s.last() {
                        let i = choose|i: int| 0 <= i < k.len() && k[i] == c;
                        assert(kd[i] == c);
                    }
                    assert(k[k.len() - 1] == s.last());
                }
            }
        }
    }
}

/// A word is not empty, and its characters are those of the text that are not white.
spec fn is_word_of(w: Seq<char>, s: Seq<char>) -> bool {
    &&& w.len() > 0
    &&& forall|i: int| 0 <= i < w.len() ==> !is_white(#[trigger] w[i]) && s.contains(w[i])
}

proof fn lemma_words(s: Seq<char>)
    ensures
        forall|i: int| 0 <= i < closed_words(s).len() ==> is_word_of(#[trigger] closed_words(s)[i], s),
        open_word(s).len() > 0 ==> is_word_of(open_word(s), s),
        (closed_words(s).len() == 0 && open_word(s).len() == 0) <==> (forall|i: int|
            0 <= i < s.len() ==> is_white(#[trigger] s[i])),
    decreases s.len(),
{
    if s.len() > 0 {
        let d = s.drop_last();
        lemma_words(d);
        assert forall|c: char| d.contains(c) implies s.contains(c) by {
            let i = choose|i: int| 0 <= i < d.len() && d[i] == c;
            assert(s[i] == c);
        }
        assert(s[s.len() - 1] == s.last());
        assert(s.contains(s.last()));
        let a = closed_words(s);
        assert forall|i: int| 0 <= i < a.len() implies is_word_of(#[trigger] a[i], s) by {
            if i < closed_words(d).len() {
                assert(is_word_of(closed_words(d)[i], d));
            } else {
                assert(is_word_of(open_word(d), d));
            }
        }
        let w = open_word(s);
        if w.len() > 0 {
            assert forall|i: int| 0 <= i < w.len() implies !is_white(#[trigger] w[i])
                && s.contains(w[i]) by {
                if i < open_word(d).len() {
                    assert(w[i] == open_word(d)[i]);
                }
            }
        }
        if forall|i: int| 0 <= i < s.len() ==> is_white(#[trigger] s[i]) {
            assert forall|i: int| 0 <= i < d.len() implies is_white(#[trigger] d[i]) by {
                assert(is_white(s[i]));
            }
        } else if forall|i: int| 0 <= i < d.len() ==> is_white(#[trigger] d[i]) {
            assert(!is_white(s.last())) by {
                let i = choose|i: int| 0 <= i < s.len() && !is_white(#[trigger] s[i]);
                if i < d.len() {
                    assert(d[i] == s[i]);
                }
            }
        }
    } else {
        assert(closed_words(s) =~= Seq::<Seq<char>>::empty());
    }
}

proof fn lemma_join_push(v: Seq<Seq<char>>, x: Seq<char>)
    ensures
        join_of(v.push(x), " "@) == if v.len() == 0 {
            x
        } else {
            join_of(v, " "@) + " "@ + x
        },
{
    assert(v.push(x).drop_last() =~= v);
}

/// Words that are joined by spaces make a text of words.
proof fn lemma_join_is_spaced(v: Seq<Seq<char>>, s: Seq<char>, keep: spec_fn(char) -> bool)
    requires
        v.len() > 0,
        forall|i: int| 0 <= i < v.len() ==> is_word_of(#[trigger] v[i], s),
        forall|c: char| #[trigger] s.contains(c) ==> keep(c) || is_white(c),
    ensures
        is_spaced(join_of(v, " "@), keep),
        drawn_from(join_of(v, " "@), s),
    decreases v.len(),
{
    reveal_strlit(" ");
    let w = v.last();
    assert(is_word_of(v[v.len() - 1], s));
    assert(is_white(' '));
    assert forall|i: int| 0 <= i < w.len() implies word_letter(#[trigger] w[i], keep) && w[i]
        != ' ' by {
        assert(s.contains(w[i]));
    }
    if v.len() > 1 {
        let front = v.drop_last();
        assert forall|i: int| 0 <= i < front.len() implies is_word_of(#[trigger] front[i], s) by {
            assert(is_word_of(v[i], s));
        }
        lemma_join_is_spaced(front, s, keep);
        let f = join_of(front, " "@);
        let t = join_of(v, " "@);
        let n = f.len() as int;
        assert(t =~= f + " "@ + w);
        assert(t.last() == w.last());
        assert forall|i: int| 0 <= i < t.len() implies (#[trigger] t[i]) == ' ' || (word_letter(
            t[i],
            keep,
        ) && s.contains(t[i])) by {
            if i < n {
                assert(t[i] == f[i]);
            } else if i > n {
                assert(t[i] == w[i - n - 1]);
            }
        }
        assert forall|i: int| 0 <= i < t.len() - 1 implies !((#[trigger] t[i]) == ' ' && t[i + 1]
            == ' ') by {
            if i < n - 1 {
                assert(t[i] == f[i] && t[i + 1] == f[i + 1]);
            } else if i == n - 1 {
                assert(t[i] == f.last());
            } else {
                assert(t[i + 1] == w[i - n]);
            }
        }
    } else {
        assert(join_of(v, " "@) == w);
    }
}

/// A text whose white space is single spaces between words, and perhaps one at the end.
spec fn is_open_spaced(t: Seq<char>) -> bool {
    &&& t.len() > 0 ==> t[0] != ' '
    &&& forall|i: int| 0 <= i < t.len() && is_white(#[trigger] t[i]) ==> t[i] == ' '
    &&& forall|i: int| 0 <= i < t.len() - 1 ==> !((#[trigger] t[i]) == ' ' && t[i + 1] == ' ')
}

/// Such a text is its words with spaces between them.
proof fn lemma_words_rejoin(t: Seq<char>)
    requires
        is_open_spaced(t),
    ensures
        t.len() == 0 ==> closed_words(t).len() == 0 && open_word(t).len() == 0,
        t.len() > 0 && t.last() == ' ' ==> open_word(t).len() == 0 && closed_words(t).len() > 0
            && join_of(closed_words(t), " "@) == t.drop_last(),
        t.len() > 0 && t.last() != ' ' ==> open_word(t).len() > 0 && join_of(
            closed_words(t).push(open_word(t)),
            " "@,
        ) == t,
    decreases t.len(),
{
    reveal_strlit(" ");
    assert(is_white(' '));
    if t.len() > 0 {
        let d = t.drop_last();
        assert(is_open_spaced(d)) by {
            if d.len() > 0 {
                assert(d[0] == t[0]);
            }
            assert forall|i: int| 0 <= i < d.len() && is_white(#[trigger] d[i]) implies d[i]
                == ' ' by {
                assert(d[i] == t[i]);
            }
            assert forall|i: int| 0 <= i < d.len() - 1 implies !((#[trigger] d[i]) == ' '
                && d[i + 1] == ' ') by {
                assert(d[i] == t[i] && d[i + 1] == t[i + 1]);
            }
        }
        lemma_words_rejoin(d);
        assert(t[t.len() - 1] == t.last());
        if d.len() > 0 {
            assert(t[t.len() - 2] == d.last());
        }
        let a = closed_words(d);
        let w = open_word(d);
        lemma_join_push(a, w);
        lemma_join_push(a, open_word(t));
        if t.last() == ' ' {
            assert(d.last() != ' ');
            assert(closed_words(t) == a.push(w));
        } else if d.len() > 0 && d.last() == ' ' {
            assert(w =~= Seq::<char>::empty());
            assert(open_word(t) =~= seq![t.last()]);
            assert(join_of(a, " "@) + " "@ + open_word(t) =~= t);
        } else if d.len() > 0 {
            if a.len() == 0 {
                assert(open_word(t) =~= t);
            } else {
                let p = join_of(a, " "@) + " "@;
                let x = t.last();
                assert(d == p + w);
                assert(open_word(t) == w.push(x));
                assert(p + w.push(x) =~= (p + w).push(x));
                assert(t =~= d.push(x));
            }
        } else {
            assert(w =~= Seq::<char>::empty());
            assert(open_word(t) =~= t);
        }
    }
}

proof fn lemma_all_kept(t: Seq<char>, keep: spec_fn(char) -> bool)
    requires
        forall|i: int| 0 <= i < t.len() ==> keep(#[trigger] t[i]) || is_white(t[i]),
    ensures
        kept_chars(t, keep) == t,
    decreases t.len(),
{
    if t.len() > 0 {
        let d = t.drop_last();
        assert forall|i: int| 0 <= i < d.len() implies keep(#[trigger] d[i]) || is_white(d[i]) by {
            assert(d[i] == t[i]);
        }
        lemma_all_kept(d, keep);
        assert(t[t.len() - 1] == t.last());
        assert(t =~= d.push(t.last()));
    } else {
        assert(kept_chars(t, keep) =~= t);
    }
}

proof fn lemma_normal_form(s: Seq<char>, keep: spec_fn(char) -> bool)
    ensures
        normal_form(s, keep) is None <==> forall|i: int|
            0 <= i < s.len() ==> !word_letter(#[trigger] s[i], keep),
        normal_form(s, keep) matches Some(t) ==> is_spaced(t, keep) && drawn_from(t, s),
{
    let k = kept_chars(s, keep);
    lemma_kept(s, keep);
    lemma_words(k);
    let words = words_of(k);
    if words.len() == 0 {
        assert(join_of(words, " "@) =~= Seq::<char>::empty());
        assert forall|i: int| 0 <= i < s.len() implies !word_letter(#[trigger] s[i], keep) by {
            if word_letter(s[i], keep) {
                assert(s.contains(s[i]));
                assert(k.contains(s[i]));
                let j = choose|j: int| 0 <= j < k.len() && k[j] == s[i];
                assert(is_white(k[j]));
            }
        }
    } else {
        assert forall|i: int| 0 <= i < words.len() implies is_word_of(#[trigger] words[i], k) by {
            if i < closed_words(k).len() {
                assert(words[i] == closed_words(k)[i]);
            }
        }
        lemma_join_is_spaced(words, k, keep);
        let t = join_of(words, " "@);
        assert(is_word_of(words[0], k));
        let c = words[0][0];
        assert(k.contains(c) && !is_white(c));
        assert(s.contains(c));
        let i = choose|i: int| 0 <= i < s.len() && s[i] == c;
        assert(word_letter(s[i], keep));
        assert forall|i: int| 0 <= i < t.len() implies (#[trigger] t[i]) == ' ' || s.contains(
            t[i],
        ) by {
            if t[i] != ' ' {
                assert(k.contains(t[i]));
            }
        }
    }
}

proof fn lemma_spaced_stays(t: Seq<char>, keep: spec_fn(char) -> bool)
    requires
        is_spaced(t, keep),
    ensures
        normal_form(t, keep) == Some(t),
{
    assert(is_white(' '));
    lemma_all_kept(t, keep);
    lemma_words_rejoin(t);
}

/// A normal form is made of words of alphanumeric characters with one space between two
/// of them, and none at an end. There is none exactly where lower case leaves no such
/// character.
pub proof fn law_normal_form_is_clean(s: Seq<char>)
    ensures
        normal_of(s) is None <==> forall|i: int|
            0 <= i < lower_of(s).len() ==> !word_letter(
                #[trigger] lower_of(s)[i],
                |c: char| alnum(c),
            ),
        normal_of(s) matches Some(t) ==> is_spaced(t, |c: char| alnum(c)),
{
    lemma_normal_form(lower_of(s), |c: char| alnum(c));
}

/// A normal form that is in lower case is its own normal form.
pub proof fn law_normal_form_stays(s: Seq<char>, t: Seq<char>)
    requires
        normal_of(s) == Some(t),
        lower_of(t) == t,
    ensures
        normal_of(t) == Some(t),
{
    lemma_normal_form(lower_of(s), |c: char| alnum(c));
    lemma_spaced_stays(t, |c: char| alnum(c));
}

/// An ASCII text has no normal form exactly where no letter or digit stands in it.
pub proof fn law_ascii_normal_form_is_owed(s: Seq<char>)
    requires
        all_ascii(s),
    ensures
        ascii_normal_of(s) is None <==> forall|i: int|
            0 <= i < s.len() ==> !ascii_alnum(#[trigger] s[i]),
{
    let keep = |c: char| ascii_alnum(c);
    let lowered = ascii_lowered(s);
    lemma_normal_form(lowered, keep);
    assert forall|i: int| 0 <= i < s.len() implies ascii_alnum(#[trigger] s[i]) == word_letter(
        lowered[i],
        keep,
    ) by {
        assert(lowered[i] == ascii_lower(s[i]));
    }
    if forall|i: int| 0 <= i < s.len() ==> !ascii_alnum(#[trigger] s[i]) {
        assert forall|i: int| 0 <= i < lowered.len() implies !word_letter(
            #[trigger] lowered[i],
            keep,
        ) by {
            assert(!ascii_alnum(s[i]));
        }
    }
}

/// The normal form of an ASCII text is an ASCII text, and its own normal form.
pub proof fn law_ascii_normal_form_stays(s: Seq<char>, t: Seq<char>)
    requires
        all_ascii(s),
        ascii_normal_of(s) == Some(t),
    ensures
        is_spaced(t, |c: char| ascii_alnum(c)),
        all_ascii(t),
        ascii_normal_of(t) == Some(t),
{
    let keep = |c: char| ascii_alnum(c);
    let lowered = ascii_lowered(s);
    lemma_normal_form(lowered, keep);
    assert forall|i: int| 0 <= i < t.len() implies (#[trigger] t[i] as u32) < 128 && ascii_lower(
        t[i],
    ) == t[i] by {
        if t[i] != ' ' {
            let j = choose|j: int| 0 <= j < lowered.len() && lowered[j] == t[i];
            assert(lowered[j] == ascii_lower(s[j]));
            assert((s[j] as u32) < 128);
        }
    }
    assert(ascii_lowered(t) =~= t);
    lemma_spaced_stays(t, keep);
}

/// What a map of texts says.
pub open spec fn text_map(m: StrMap<String>) -> Map<Seq<char>, Seq<char>> {
    m@.map_values(|t: String| t@)
}

/// How often a value stands among normal forms.
pub open spec fn votes(norms: Seq<Option<Seq<char>>>, v: Seq<char>) -> nat
    decreases norms.len(),
{
    if norms.len() == 0 {
        0
    } else if norms.last() == Some(v) {
        votes(norms.drop_last(), v) + 1
    } else {
        votes(norms.drop_last(), v)
    }
}

/// `i` is the earliest completion with the most votes, or the first one where
/// there are no votes.
pub open spec fn wins(norms: Seq<Option<Seq<char>>>, i: int) -> bool {
    &&& 0 <= i < norms.len()
    &&& norms[i] is None ==> i == 0 && forall|j: int|
        0 <= j < norms.len() ==> (#[trigger] norms[j]) is None
    &&& norms[i] is Some ==> forall|j: int|
        0 <= j < norms.len() && (#[trigger] norms[j]) is Some ==> votes(norms, norms[j].unwrap())
            <= votes(norms, norms[i].unwrap()) && (j < i ==> votes(norms, norms[j].unwrap())
            < votes(norms, norms[i].unwrap()))
}

/// The field that is voted on: the one that is named, or else the last one of the
/// first completion.
pub open spec fn voted_field(completions: Seq<StrMap<String>>, field: Option<&str>) -> Option<
    Seq<char>,
> {
    match field {
        Some(f) => Some(f@),
        None => if completions.len() > 0 && completions[0].keys().len() > 0 {
            Some(completions[0].keys().last())
        } else {
            None
        },
    }
}

/// `n` is a normal form of what a completion has in a field: nothing where it has
/// nothing.
pub open spec fn normal_in<F: Fn(&str) -> Option<String>>(
    c: StrMap<String>,
    field: Seq<char>,
    normalize: Option<F>,
    n: Option<Seq<char>>,
) -> bool {
    if !c@.contains_key(field) {
        n is None
    } else {
        match normalize {
            None => n == normal_of(c@[field]@),
            Some(f) => exists|s: &str, r: Option<String>|
                s@ == c@[field]@ && #[trigger] f.ensures((s,), r) && opt_said(r) == n,
        }
    }
}

fn count_votes(norms: &Vec<Option<String>>, v: &str) -> (r: usize)
    ensures
        r == votes(norms@.map_values(|n: Option<String>| opt_said(n)), v@),
        r <= norms@.len(),
{
    let ghost all = norms@.map_values(|n: Option<String>| opt_said(n));
    let mut r: usize = 0;
    let mut i: usize = 0;
    proof {
        assert(all.take(0) =~= Seq::<Option<Seq<char>>>::empty());
    }
    while i < norms.len()
        invariant
            i <= norms.len(),
            all == norms@.map_values(|n: Option<String>| opt_said(n)),
            r == votes(all.take(i as int), v@),
            r <= i,
        decreases norms.len() - i,
    {
        proof {
            assert(all.take(i + 1).drop_last() =~= all.take(i as int));
            assert(all.take(i + 1).last() == opt_said(norms@[i as int]));
        }
        if let Some(t) = &norms[i] {
            if same(t.as_str(), v) {
                r = r + 1;
            }
        }
        i = i + 1;
    }
    proof {
        assert(all.take(i as int) =~= all);
    }
    r
}

/// The earliest completion with the most votes, or the first one where there are
/// no votes.
pub fn majority_index(norms: &Vec<Option<String>>) -> (r: usize)
    requires
        norms@.len() > 0,
    ensures
        wins(norms@.map_values(|n: Option<String>| opt_said(n)), r as int),
{
    let ghost all = norms@.map_values(|n: Option<String>| opt_said(n));
    let mut best: usize = 0;
    let mut most: usize = 0;
    let mut i: usize = 0;
    while i < norms.len()
        invariant
            i <= norms.len(),
            all == norms@.map_values(|n: Option<String>| opt_said(n)),
            best < norms.len(),
            most == 0 ==> best == 0 && forall|j: int| 0 <= j < i ==> (#[trigger] all[j]) is None,
            most > 0 ==> best < i && all[best as int] is Some && votes(
                all,
                all[best as int].unwrap(),
            ) == most,
            forall|j: int|
                0 <= j < i && (#[trigger] all[j]) is Some ==> votes(all, all[j].unwrap()) <= most,
            forall|j: int|
                0 <= j < best && (#[trigger] all[j]) is Some ==> votes(all, all[j].unwrap())
                    < most,
        decreases norms.len() - i,
    {
        if let Some(t) = &norms[i] {
            let n: usize = count_votes(norms, t.as_str());
            proof {
                lemma_has_vote(all, i as int);
                assert(all[i as int] == Some(t@));
            }
            if n > most {
                most = n;
                best = i;
            }
        }
        i = i + 1;
    }
    best
}

proof fn lemma_has_vote(norms: Seq<Option<Seq<char>>>, i: int)
    requires
        0 <= i < norms.len(),
        norms[i] is Some,
    ensures
        votes(norms, norms[i].unwrap()) > 0,
    decreases norms.len(),
{
    if i < norms.len() - 1 {
        assert(norms.drop_last()[i] == norms[i]);
        lemma_has_vote(norms.drop_last(), i);
    }
}

/// A copy of a map of texts.
pub fn copy_text_map(m: &StrMap<String>) -> (r: StrMap<String>)
    ensures
        text_map(r) == text_map(*m),
        r.keys() == m.keys(),
{
    let ghost keys = m.keys();
    let mut r: StrMap<String> = StrMap::new();
    let n: usize = m.len();
    let mut i: usize = 0;
    proof {
        use_type_invariant(m);
        m.lemma_shape();
        assert(keys.take(0) =~= Seq::<Seq<char>>::empty());
    }
    while i < n
        invariant
            n == keys.len(),
            i <= n,
            keys == m.keys(),
            keys.no_duplicates(),
            forall|k: int| 0 <= k < n ==> m@.contains_key(#[trigger] keys[k]),
            r.keys() == keys.take(i as int),
            forall|k: Seq<char>| #[trigger]
                r@.contains_key(k) <==> keys.take(i as int).contains(k),
            forall|k: Seq<char>| #[trigger] r@.contains_key(k) ==> r@[k]@ == m@[k]@,
        decreases n - i,
    {
        let k = m.key_at(i);
        let v = m.value_at(i).clone();
        proof {
            assert(m@.contains_key(keys[i as int]));
            if r@.contains_key(k@) {
                let j = choose|j: int| 0 <= j < i && keys.take(i as int)[j] == k@;
                assert(keys[j] == keys[i as int]);
            }
        }
        r.insert(k.clone(), v);
        proof {
            let a1 = keys.take(i as int);
            let a2 = keys.take(i + 1);
            assert(a2 =~= a1.push(keys[i as int]));
            assert forall|y: Seq<char>| a2.contains(y) <==> (a1.contains(y) || y
                == keys[i as int]) by {
                if a1.contains(y) {
                    let j = choose|j: int| 0 <= j < a1.len() && a1[j] == y;
                    assert(a2[j] == y);
                }
                assert(a2[i as int] == keys[i as int]);
            }
        }
        i = i + 1;
    }
    proof {
        assert(keys.take(i as int) =~= keys);
        use_type_invariant(m);
        m.lemma_shape();
        assert(text_map(r) =~= text_map(*m));
    }
    r
}

/// The completion with the most common value of a field, or of the last field of
/// the first completion. Values are told apart by their normal forms, and those
/// without one have no vote. Among values with as many votes the earliest wins.
pub fn majority<F: Fn(&str) -> Option<String>>(
    completions: &Vec<StrMap<String>>,
    field: Option<&str>,
    normalize: Option<F>,
) -> (r: Option<StrMap<String>>)
    requires
        normalize matches Some(f) ==> forall|s: &str| #[trigger] f.requires((s,)),
    ensures
        r is None <==> (completions@.len() == 0 || voted_field(completions@, field) is None),
        r matches Some(m) ==> exists|norms: Seq<Option<Seq<char>>>, i: int| #[trigger]
            wins(norms, i) && norms.len() == completions@.len() && (forall|k: int|
                0 <= k < norms.len() ==> normal_in(
                    completions@[k],
                    voted_field(completions@, field).unwrap(),
                    normalize,
                    #[trigger] norms[k],
                )) && text_map(m) == text_map(completions@[i]) && m.keys()
                == completions@[i].keys(),
{
    if completions.len() == 0 {
        return None;
    }
    let target: String = match field {
        Some(f) => f.to_owned(),
        None => {
            let n: usize = completions[0].len();
            if n == 0 {
                return None;
            }
            completions[0].key_at(n - 1).clone()
        },
    };
    let ghost name = target@;
    let mut norms: Vec<Option<String>> = Vec::new();
    let mut i: usize = 0;
    while i < completions.len()
        invariant
            i <= completions.len(),
            name == target@,
            normalize matches Some(f) ==> forall|s: &str| #[trigger] f.requires((s,)),
            norms@.len() == i,
            forall|k: int|
                0 <= k < i ==> normal_in(
                    completions@[k],
                    name,
                    normalize,
                    opt_said(#[trigger] norms@[k]),
                ),
        decreases completions.len() - i,
    {
        let n = match completions[i].get(target.as_str()) {
            Some(v) => match &normalize {
                Some(f) => {
                    let s = v.as_str();
                    let out = f(s);
                    proof {
                        assert(f.ensures((s,), out));
                    }
                    out
                },
                None => default_normalize(v.as_str()),
            },
            None => None,
        };
        norms.push(n);
        i = i + 1;
    }
    let best: usize = majority_index(&norms);
    let m = copy_text_map(&completions[best]);
    proof {
        let all = norms@.map_values(|n: Option<String>| opt_said(n));
        assert(wins(all, best as int));
        assert forall|k: int| 0 <= k < all.len() implies normal_in(
            completions@[k],
            name,
            normalize,
            #[trigger] all[k],
        ) by {
            assert(all[k] == opt_said(norms@[k]));
        }
    }
    Some(m)
}

/// The earliest completion with the most votes is the only one.
pub proof fn law_one_winner(norms: Seq<Option<Seq<char>>>, a: int, b: int)
    requires
        wins(norms, a),
        wins(norms, b),
    ensures
        a == b,
{
    assert(norms[a] is Some || norms[a] is None);
    assert(norms[b] is Some || norms[b] is None);
}

} // verus!
