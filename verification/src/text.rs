//! Text as sequences of characters: searching, trimming, splitting, joining and
//! ordering, each stated over `Seq<char>`.

use vstd::prelude::*;

verus! {

/// `String::push` appends one character.
pub assume_specification[ std::string::String::push ](s: &mut std::string::String, c: char)
    ensures
        final(s)@ == old(s)@.push(c),
;

// ---------------------------------------------------------------------------
// Characters
// ---------------------------------------------------------------------------

/// The code points with the Unicode property `White_Space`.
pub open spec fn white_code(n: u32) -> bool {
    ||| 0x9 <= n <= 0xd
    ||| n == 0x20
    ||| n == 0x85
    ||| n == 0xa0
    ||| n == 0x1680
    ||| 0x2000 <= n <= 0x200a
    ||| n == 0x2028
    ||| n == 0x2029
    ||| n == 0x202f
    ||| n == 0x205f
    ||| n == 0x3000
}

/// Whether a character is white space.
pub open spec fn is_white(c: char) -> bool {
    white_code(c as u32)
}

/// Whether `c` is white space.
pub fn is_whitespace(c: char) -> (r: bool)
    ensures
        r == is_white(c),
{
    let n: u32 = c as u32;
    (0x9 <= n && n <= 0xd) || n == 0x20 || n == 0x85 || n == 0xa0 || n == 0x1680 || (0x2000 <= n
        && n <= 0x200a) || n == 0x2028 || n == 0x2029 || n == 0x202f || n == 0x205f || n == 0x3000
}

/// The characters of `s` in order.
pub fn chars_of(s: &str) -> (v: Vec<char>)
    ensures
        v@ == s@,
{
    let mut v: Vec<char> = Vec::new();
    for c in it: s.chars()
        invariant
            v@ == it.seq().take(it.index()),
    {
        proof {
            assert(it.seq().take(it.index() + 1) =~= it.seq().take(it.index()).push(c));
        }
        v.push(c);
    }
    v
}

/// The text made of the characters `from..to` of `v`.
pub fn slice_text(v: &Vec<char>, from: usize, to: usize) -> (s: String)
    requires
        from <= to <= v@.len(),
    ensures
        s@ == v@.subrange(from as int, to as int),
{
    let mut s = String::new();
    let mut i: usize = from;
    while i < to
        invariant
            from <= i <= to <= v@.len(),
            s@ == v@.subrange(from as int, i as int),
        decreases to - i,
    {
        s.push(v[i]);
        i = i + 1;
    }
    s
}

/// Whether two texts hold the same characters.
pub fn same(a: &str, b: &str) -> (r: bool)
    ensures
        r == (a@ == b@),
{
    a.to_owned() == b.to_owned()
}

// ---------------------------------------------------------------------------
// Searching
// ---------------------------------------------------------------------------

/// `n` stands in `h` at position `i`.
pub open spec fn occurs_at(h: Seq<char>, n: Seq<char>, i: int) -> bool {
    0 <= i && i + n.len() <= h.len() && h.subrange(i, i + n.len()) == n
}

/// The first position, from `i` on, at which `n` stands in `h`.
pub open spec fn find_from(h: Seq<char>, n: Seq<char>, i: int) -> Option<int>
    decreases h.len() + 1 - i,
{
    if i < 0 || i + n.len() > h.len() {
        None
    } else if occurs_at(h, n, i) {
        Some(i)
    } else {
        find_from(h, n, i + 1)
    }
}

/// The first position at which `n` stands in `h`.
pub open spec fn find_first(h: Seq<char>, n: Seq<char>) -> Option<int> {
    find_from(h, n, 0)
}

/// `n` stands somewhere in `h`.
pub open spec fn has_text(h: Seq<char>, n: Seq<char>) -> bool {
    find_first(h, n) is Some
}

/// `h` begins with `n`.
pub open spec fn begins_with(h: Seq<char>, n: Seq<char>) -> bool {
    occurs_at(h, n, 0)
}

/// `h` ends with `n`.
pub open spec fn finishes_with(h: Seq<char>, n: Seq<char>) -> bool {
    occurs_at(h, n, h.len() - n.len())
}

/// A search finds the least position at which the text stands, and finds one
/// whenever there is one.
pub proof fn lemma_find_from(h: Seq<char>, n: Seq<char>, i: int)
    requires
        0 <= i,
    ensures
        find_from(h, n, i) matches Some(p) ==> i <= p && occurs_at(h, n, p) && (forall|j: int|
            i <= j < p ==> !occurs_at(h, n, j)),
        find_from(h, n, i) is None ==> forall|j: int| i <= j ==> !occurs_at(h, n, j),
    decreases h.len() + 1 - i,
{
    if i + n.len() > h.len() {
    } else if occurs_at(h, n, i) {
    } else {
        lemma_find_from(h, n, i + 1);
    }
}

/// The least position at which the text stands is what a search finds.
pub proof fn lemma_find_is(h: Seq<char>, n: Seq<char>, i: int, p: int)
    requires
        0 <= i <= p,
        occurs_at(h, n, p),
        forall|j: int| i <= j < p ==> !occurs_at(h, n, j),
    ensures
        find_from(h, n, i) == Some(p),
    decreases p - i,
{
    if i < p {
        assert(!occurs_at(h, n, i));
        lemma_find_is(h, n, i + 1, p);
    }
}

/// A text without a line break does not reach over the end of a line: where it
/// does not stand in `s`, it does not stand in what goes on after `s`.
pub proof fn lemma_not_over_line(s: Seq<char>, rest: Seq<char>, n: Seq<char>, from: int)
    requires
        0 <= from,
        n.len() > 0,
        !n.contains('\n'),
        find_from(s, n, from) is None,
    ensures
        forall|q: int| from <= q <= s.len() ==> !#[trigger] occurs_at(s.push('\n') + rest, n, q),
{
    let t = s.push('\n') + rest;
    lemma_find_from(s, n, from);
    assert forall|q: int| from <= q <= s.len() implies !#[trigger] occurs_at(t, n, q) by {
        if occurs_at(t, n, q) {
            if q + n.len() <= s.len() {
                assert(s.subrange(q, q + n.len()) =~= t.subrange(q, q + n.len()));
                assert(occurs_at(s, n, q));
            } else {
                assert(t[s.len() as int] == '\n');
                assert(t.subrange(q, q + n.len())[s.len() - q] == '\n');
                assert(n.contains('\n'));
            }
        }
    }
}

/// Whether `n` stands in `h` at `i`.
pub fn matches_at(h: &Vec<char>, n: &Vec<char>, i: usize) -> (r: bool)
    ensures
        r == occurs_at(h@, n@, i as int),
{
    if n.len() > h.len() || i > h.len() - n.len() {
        return false;
    }
    let mut k: usize = 0;
    while k < n.len()
        invariant
            k <= n.len(),
            i + n.len() <= h.len(),
            forall|j: int| 0 <= j < k ==> h@[i + j] == n@[j],
        decreases n@.len() - k,
    {
        if h[i + k] != n[k] {
            proof {
                assert(h@.subrange(i as int, i + n@.len())[k as int] == h@[i + k]);
            }
            return false;
        }
        k = k + 1;
    }
    proof {
        assert(h@.subrange(i as int, i + n@.len()) =~= n@);
    }
    true
}

/// The first position, from `from` on, at which `n` stands in `h`.
pub fn find_chars(h: &Vec<char>, n: &Vec<char>, from: usize) -> (r: Option<usize>)
    ensures
        r is Some <==> find_from(h@, n@, from as int) is Some,
        r matches Some(p) ==> find_from(h@, n@, from as int) == Some(p as int) && from <= p && p
            + n@.len() <= h@.len(),
{
    if n.len() > h.len() {
        return None;
    }
    let last: usize = h.len() - n.len();
    let mut i: usize = from;
    while i <= last
        invariant
            last == h@.len() - n@.len(),
            from <= i,
            i <= last + 1 || i == from,
            find_from(h@, n@, from as int) == find_from(h@, n@, i as int),
        decreases last + 1 - i,
    {
        if matches_at(h, n, i) {
            return Some(i);
        }
        if i == last {
            proof {
                assert(find_from(h@, n@, i + 1) is None);
            }
            return None;
        }
        i = i + 1;
    }
    None
}

/// The position of the first occurrence of `n` in `h`, counted in characters.
pub fn find_text(h: &str, n: &str) -> (r: Option<usize>)
    ensures
        r is Some <==> find_first(h@, n@) is Some,
        r matches Some(p) ==> find_first(h@, n@) == Some(p as int) && p + n@.len() <= h@.len(),
{
    find_chars(&chars_of(h), &chars_of(n), 0)
}

/// Whether `n` stands somewhere in `h`.
pub fn contains(h: &str, n: &str) -> (r: bool)
    ensures
        r == has_text(h@, n@),
{
    find_text(h, n).is_some()
}

/// Whether `h` begins with `n`.
pub fn starts_with(h: &str, n: &str) -> (r: bool)
    ensures
        r == begins_with(h@, n@),
{
    matches_at(&chars_of(h), &chars_of(n), 0)
}

/// Whether `h` ends with `n`.
pub fn ends_with(h: &str, n: &str) -> (r: bool)
    ensures
        r == finishes_with(h@, n@),
{
    let hc = chars_of(h);
    let nc = chars_of(n);
    if nc.len() > hc.len() {
        return false;
    }
    let at: usize = hc.len() - nc.len();
    matches_at(&hc, &nc, at)
}

// ---------------------------------------------------------------------------
// Trimming
// ---------------------------------------------------------------------------

/// `s` without the white space at its start.
pub open spec fn trim_start_of(s: Seq<char>) -> Seq<char>
    decreases s.len(),
{
    if s.len() > 0 && is_white(s[0]) {
        trim_start_of(s.subrange(1, s.len() as int))
    } else {
        s
    }
}

/// `s` without the white space at its end.
pub open spec fn trim_end_of(s: Seq<char>) -> Seq<char>
    decreases s.len(),
{
    if s.len() > 0 && is_white(s.last()) {
        trim_end_of(s.drop_last())
    } else {
        s
    }
}

/// `s` without the white space around it.
pub open spec fn trim_of(s: Seq<char>) -> Seq<char> {
    trim_end_of(trim_start_of(s))
}

/// White space before a text does not matter when it is trimmed.
pub proof fn lemma_trim_front(c: char, s: Seq<char>)
    requires
        is_white(c),
    ensures
        trim_of(seq![c] + s) == trim_of(s),
{
    let t = seq![c] + s;
    assert(t.subrange(1, t.len() as int) =~= s);
}

proof fn lemma_trim_start_back(s: Seq<char>, c: char)
    requires
        is_white(c),
    ensures
        trim_start_of(s.push(c)) == if trim_start_of(s).len() == 0 {
            Seq::empty()
        } else {
            trim_start_of(s).push(c)
        },
    decreases s.len(),
{
    let t = s.push(c);
    if s.len() == 0 {
        assert(t.subrange(1, t.len() as int) =~= Seq::<char>::empty());
        assert(trim_start_of(t.subrange(1, t.len() as int)) =~= Seq::<char>::empty());
    } else if is_white(s[0]) {
        let r = s.subrange(1, s.len() as int);
        assert(t.subrange(1, t.len() as int) =~= r.push(c));
        lemma_trim_start_back(r, c);
    }
}

/// White space after a text does not matter when it is trimmed.
pub proof fn lemma_trim_back(s: Seq<char>, c: char)
    requires
        is_white(c),
    ensures
        trim_of(s.push(c)) == trim_of(s),
{
    lemma_trim_start_back(s, c);
    let t = trim_start_of(s);
    if t.len() == 0 {
        assert(t =~= Seq::<char>::empty());
    } else {
        assert(t.push(c).drop_last() =~= t);
    }
}

/// How many white characters stand at the start of `v`.
fn leading_white(v: &Vec<char>) -> (n: usize)
    ensures
        n <= v@.len(),
        trim_start_of(v@) == v@.subrange(n as int, v@.len() as int),
{
    let mut i: usize = 0;
    proof {
        assert(v@.subrange(0, v@.len() as int) =~= v@);
    }
    while i < v.len() && is_whitespace(v[i])
        invariant
            i <= v@.len(),
            trim_start_of(v@) == trim_start_of(v@.subrange(i as int, v@.len() as int)),
        decreases v@.len() - i,
    {
        proof {
            let rest = v@.subrange(i as int, v@.len() as int);
            assert(rest.subrange(1, rest.len() as int) =~= v@.subrange(i + 1, v@.len() as int));
            assert(rest[0] == v@[i as int]);
        }
        i = i + 1;
    }
    proof {
        let rest = v@.subrange(i as int, v@.len() as int);
        if i < v@.len() {
            assert(rest[0] == v@[i as int]);
        }
    }
    i
}

/// Where the text `v[from..]` ends once the white space at its end is gone.
fn trailing_end(v: &Vec<char>, from: usize) -> (n: usize)
    requires
        from <= v@.len(),
    ensures
        from <= n <= v@.len(),
        trim_end_of(v@.subrange(from as int, v@.len() as int)) == v@.subrange(from as int, n as int),
{
    let mut n: usize = v.len();
    while n > from && is_whitespace(v[n - 1])
        invariant
            from <= n <= v@.len(),
            trim_end_of(v@.subrange(from as int, v@.len() as int)) == trim_end_of(
                v@.subrange(from as int, n as int),
            ),
        decreases n,
    {
        proof {
            let rest = v@.subrange(from as int, n as int);
            assert(rest.last() == v@[n - 1]);
            assert(rest.drop_last() =~= v@.subrange(from as int, n - 1));
        }
        n = n - 1;
    }
    proof {
        let rest = v@.subrange(from as int, n as int);
        if n > from {
            assert(rest.last() == v@[n - 1]);
        }
    }
    n
}

/// `s` without the white space around it.
pub fn trim(s: &str) -> (r: String)
    ensures
        r@ == trim_of(s@),
{
    let v = chars_of(s);
    let a: usize = leading_white(&v);
    let b: usize = trailing_end(&v, a);
    slice_text(&v, a, b)
}

/// `s` without the white space at its start.
pub fn trim_start(s: &str) -> (r: String)
    ensures
        r@ == trim_start_of(s@),
{
    let v = chars_of(s);
    let a: usize = leading_white(&v);
    slice_text(&v, a, v.len())
}

/// `s` without the white space at its end.
pub fn trim_end(s: &str) -> (r: String)
    ensures
        r@ == trim_end_of(s@),
{
    let v = chars_of(s);
    let b: usize = trailing_end(&v, 0);
    proof {
        assert(v@.subrange(0, v@.len() as int) =~= v@);
    }
    slice_text(&v, 0, b)
}

// ---------------------------------------------------------------------------
// Joining
// ---------------------------------------------------------------------------

/// The texts that a list of strings holds.
pub open spec fn texts(v: Seq<String>) -> Seq<Seq<char>> {
    v.map_values(|s: String| s@)
}

/// The parts one after the other, with `sep` between two neighbours.
pub open spec fn join_of(parts: Seq<Seq<char>>, sep: Seq<char>) -> Seq<char>
    decreases parts.len(),
{
    if parts.len() == 0 {
        Seq::empty()
    } else if parts.len() == 1 {
        parts[0]
    } else {
        join_of(parts.drop_last(), sep) + sep + parts.last()
    }
}

/// Appends `s` to a list of strings.
pub fn push_text(v: &mut Vec<String>, s: String)
    ensures
        texts(final(v)@) == texts(old(v)@).push(s@),
        final(v)@ == old(v)@.push(s),
{
    v.push(s);
    proof {
        assert(texts(v@) =~= texts(old(v)@).push(s@));
    }
}

/// The parts one after the other, with `sep` between two neighbours.
pub fn join(parts: &Vec<String>, sep: &str) -> (r: String)
    ensures
        r@ == join_of(texts(parts@), sep@),
{
    let mut r = String::new();
    let mut i: usize = 0;
    proof {
        assert(texts(parts@).take(0) =~= Seq::empty());
    }
    while i < parts.len()
        invariant
            i <= parts.len(),
            r@ == join_of(texts(parts@).take(i as int), sep@),
        decreases parts.len() - i,
    {
        proof {
            let done = texts(parts@).take(i + 1);
            assert(done.drop_last() =~= texts(parts@).take(i as int));
            assert(done.last() == parts@[i as int]@);
            assert(i == 0 ==> r@ + parts@[i as int]@ =~= parts@[i as int]@);
        }
        if i > 0 {
            r.append(sep);
        }
        r.append(parts[i].as_str());
        i = i + 1;
    }
    proof {
        assert(texts(parts@).take(i as int) =~= texts(parts@));
    }
    r
}

/// A copy of a list of strings.
pub fn copy_texts(v: &Vec<String>) -> (r: Vec<String>)
    ensures
        texts(r@) == texts(v@),
        r@.len() == v@.len(),
{
    let mut r: Vec<String> = Vec::new();
    let mut i: usize = 0;
    while i < v.len()
        invariant
            i <= v.len(),
            texts(r@) == texts(v@).take(i as int),
        decreases v.len() - i,
    {
        push_text(&mut r, v[i].clone());
        proof {
            assert(texts(v@).take(i + 1) =~= texts(v@).take(i as int).push(v@[i as int]@));
        }
        i = i + 1;
    }
    proof {
        assert(texts(v@).take(i as int) =~= texts(v@));
        assert(texts(r@).len() == r@.len());
    }
    r
}

/// A list of strings holds a text.
pub open spec fn has_member(v: Seq<String>, s: Seq<char>) -> bool {
    texts(v).contains(s)
}

/// Whether a list of strings holds `s`.
pub fn member(v: &Vec<String>, s: &str) -> (r: bool)
    ensures
        r == has_member(v@, s@),
{
    let mut i: usize = 0;
    while i < v.len()
        invariant
            i <= v.len(),
            forall|j: int| 0 <= j < i ==> texts(v@)[j] != s@,
        decreases v.len() - i,
    {
        if same(v[i].as_str(), s) {
            proof {
                assert(texts(v@)[i as int] == s@);
            }
            return true;
        }
        i = i + 1;
    }
    false
}

// ---------------------------------------------------------------------------
// Splitting and replacing
// ---------------------------------------------------------------------------

/// The pieces of `s` between the occurrences of `sep`.
pub open spec fn split_of(s: Seq<char>, sep: char) -> Seq<Seq<char>>
    decreases s.len(),
{
    if s.len() == 0 {
        seq![Seq::empty()]
    } else {
        let front = split_of(s.drop_last(), sep);
        if s.last() == sep {
            front.push(Seq::empty())
        } else {
            front.drop_last().push(front.last().push(s.last()))
        }
    }
}

pub proof fn lemma_split_len(s: Seq<char>, sep: char)
    ensures
        split_of(s, sep).len() >= 1,
    decreases s.len(),
{
    if s.len() > 0 {
        lemma_split_len(s.drop_last(), sep);
    }
}

/// The pieces of `s` between the occurrences of `sep`.
pub fn split(s: &str, sep: char) -> (r: Vec<String>)
    ensures
        texts(r@) == split_of(s@, sep),
        r@.len() >= 1,
{
    let v = chars_of(s);
    let mut done: Vec<String> = Vec::new();
    let mut cur = String::new();
    let mut i: usize = 0;
    proof {
        assert(v@.take(0) =~= Seq::<char>::empty());
        assert(texts(done@).push(cur@) =~= split_of(v@.take(0), sep));
    }
    while i < v.len()
        invariant
            i <= v.len(),
            split_of(v@.take(i as int), sep) == texts(done@).push(cur@),
        decreases v.len() - i,
    {
        proof {
            assert(v@.take(i + 1).drop_last() =~= v@.take(i as int));
            assert(v@.take(i + 1).last() == v@[i as int]);
            assert(texts(done@).push(cur@).drop_last() =~= texts(done@));
        }
        if v[i] == sep {
            push_text(&mut done, cur);
            cur = String::new();
        } else {
            cur.push(v[i]);
        }
        i = i + 1;
    }
    push_text(&mut done, cur);
    proof {
        assert(v@.take(i as int) =~= s@);
        assert(texts(done@).len() == done@.len());
    }
    done
}

/// What stands before the first occurrence of `sep`, or all of `s`.
pub open spec fn before_of(s: Seq<char>, sep: Seq<char>) -> Seq<char> {
    match find_first(s, sep) {
        Some(p) => s.subrange(0, p),
        None => s,
    }
}

/// What stands before the first occurrence of `sep`, or all of `s`.
pub fn before(s: &str, sep: &str) -> (r: String)
    ensures
        r@ == before_of(s@, sep@),
{
    match find_text(s, sep) {
        Some(p) => {
            let v = chars_of(s);
            slice_text(&v, 0, p)
        },
        None => s.to_owned(),
    }
}

/// `s` with every occurrence of `from`, taken from the left, replaced by `to`.
pub open spec fn replace_of(s: Seq<char>, from: Seq<char>, to: Seq<char>) -> Seq<char>
    decreases s.len(),
{
    match find_first(s, from) {
        Some(p) => if from.len() > 0 && 0 <= p && p + from.len() <= s.len() {
            s.subrange(0, p) + to + replace_of(
                s.subrange(p + from.len(), s.len() as int),
                from,
                to,
            )
        } else {
            s
        },
        None => s,
    }
}

/// Searching a suffix finds what searching from its start finds.
pub proof fn lemma_find_suffix(h: Seq<char>, n: Seq<char>, start: int, i: int)
    requires
        0 <= start <= h.len(),
        0 <= i,
    ensures
        match find_from(h, n, start + i) {
            Some(p) => find_from(h.subrange(start, h.len() as int), n, i) == Some(p - start),
            None => find_from(h.subrange(start, h.len() as int), n, i) is None,
        },
    decreases h.len() + 1 - start - i,
{
    let t = h.subrange(start, h.len() as int);
    if start + i + n.len() > h.len() {
    } else {
        assert(t.subrange(i, i + n.len()) =~= h.subrange(start + i, start + i + n.len()));
        if !occurs_at(h, n, start + i) {
            lemma_find_suffix(h, n, start, i + 1);
        }
    }
}

/// `s` with every occurrence of `from`, taken from the left, replaced by `to`.
pub fn replace(s: &str, from: &str, to: &str) -> (r: String)
    requires
        from@.len() > 0,
    ensures
        r@ == replace_of(s@, from@, to@),
{
    let v = chars_of(s);
    let n = chars_of(from);
    let mut r = String::new();
    let mut start: usize = 0;
    proof {
        assert(v@.subrange(0, v@.len() as int) =~= v@);
        assert(r@ + replace_of(s@, from@, to@) =~= replace_of(s@, from@, to@));
    }
    loop
        invariant
            v@ == s@,
            n@ == from@,
            from@.len() > 0,
            start <= v.len(),
            replace_of(s@, from@, to@) == r@ + replace_of(
                v@.subrange(start as int, v@.len() as int),
                from@,
                to@,
            ),
        decreases v.len() - start,
    {
        proof {
            lemma_find_suffix(v@, n@, start as int, 0);
        }
        match find_chars(&v, &n, start) {
            Some(p) => {
                let ghost rest = v@.subrange(start as int, v@.len() as int);
                let piece = slice_text(&v, start, p);
                proof {
                    assert(piece@ =~= rest.subrange(0, p - start));
                    assert(rest.subrange(p - start + n@.len(), rest.len() as int) =~= v@.subrange(
                        p + n@.len(),
                        v@.len() as int,
                    ));
                    let tail = replace_of(
                        v@.subrange(p + n@.len(), v@.len() as int),
                        from@,
                        to@,
                    );
                    assert(r@ + (piece@ + to@ + tail) =~= r@ + piece@ + to@ + tail);
                }
                r.append(piece.as_str());
                r.append(to);
                start = p + n.len();
            },
            None => {
                let piece = slice_text(&v, start, v.len());
                r.append(piece.as_str());
                return r;
            },
        }
    }
}

/// A line without the carriage return before its line feed.
pub open spec fn strip_cr(s: Seq<char>) -> Seq<char> {
    if s.len() > 0 && s.last() == '\r' {
        s.drop_last()
    } else {
        s
    }
}

/// The lines of pieces that a line feed follows, all but the last of `pieces`.
pub open spec fn closed_lines(pieces: Seq<Seq<char>>) -> Seq<Seq<char>> {
    pieces.drop_last().map_values(|p: Seq<char>| strip_cr(p))
}

/// The lines of `s`: a line feed ends a line, a carriage return before it goes
/// with it, and what follows the last line feed is a line unless it is empty.
pub open spec fn lines_of(s: Seq<char>) -> Seq<Seq<char>> {
    let pieces = split_of(s, '\n');
    if pieces.last().len() == 0 {
        closed_lines(pieces)
    } else {
        closed_lines(pieces).push(pieces.last())
    }
}

/// The lines of `s`.
pub fn lines(s: &str) -> (r: Vec<String>)
    ensures
        texts(r@) == lines_of(s@),
{
    let pieces = split(s, '\n');
    let last: usize = pieces.len() - 1;
    let mut r: Vec<String> = Vec::new();
    let mut i: usize = 0;
    while i < last
        invariant
            i <= last,
            last == pieces.len() - 1,
            texts(r@) == closed_lines(texts(pieces@)).take(i as int),
        decreases last - i,
    {
        let mut v = chars_of(pieces[i].as_str());
        let mut n: usize = v.len();
        if n > 0 && v[n - 1] == '\r' {
            n = n - 1;
        }
        let line = slice_text(&v, 0, n);
        proof {
            assert(line@ =~= strip_cr(pieces@[i as int]@));
            assert(closed_lines(texts(pieces@)).take(i + 1) =~= closed_lines(texts(pieces@)).take(
                i as int,
            ).push(line@));
        }
        push_text(&mut r, line);
        i = i + 1;
    }
    proof {
        assert(closed_lines(texts(pieces@)).take(i as int) =~= closed_lines(texts(pieces@)));
        assert(texts(pieces@).last() == pieces@[last as int]@);
    }
    if !pieces[last].as_str().is_empty() {
        push_text(&mut r, pieces[last].clone());
    }
    r
}

// ---------------------------------------------------------------------------
// Numbers
// ---------------------------------------------------------------------------

/// The decimal digit of a number below ten.
pub open spec fn digit_char(n: nat) -> char {
    (48 + n) as char
}

/// The decimal numeral of a natural number.
pub open spec fn dec_of(n: nat) -> Seq<char>
    decreases n,
{
    if n < 10 {
        seq![digit_char(n)]
    } else {
        dec_of(n / 10).push(digit_char(n % 10))
    }
}

/// The decimal numeral of an integer.
pub open spec fn dec_int(n: int) -> Seq<char> {
    if n < 0 {
        seq!['-'] + dec_of((-n) as nat)
    } else {
        dec_of(n as nat)
    }
}

/// The decimal numeral of `n`.
pub fn dec(n: u64) -> (r: String)
    ensures
        r@ == dec_of(n as nat),
    decreases n,
{
    let d: u8 = (n % 10) as u8;
    let c: char = (48 + d) as char;
    if n < 10 {
        let mut s = String::new();
        s.push(c);
        proof {
            assert(s@ =~= dec_of(n as nat));
        }
        s
    } else {
        let mut s = dec(n / 10);
        s.push(c);
        s
    }
}

/// The decimal numeral of `n`.
pub fn dec_size(n: usize) -> (r: String)
    ensures
        r@ == dec_of(n as nat),
{
    dec(n as u64)
}

/// The decimal numeral of `n`.
pub fn dec_signed(n: i64) -> (r: String)
    ensures
        r@ == dec_int(n as int),
{
    if n < 0 {
        let m: u64 = (-(n + 1)) as u64;
        let mut s = String::new();
        s.push('-');
        s.append(dec(m + 1).as_str());
        proof {
            assert(s@ =~= dec_int(n as int));
        }
        s
    } else {
        dec(n as u64)
    }
}

/// Whether a character is a decimal digit.
pub open spec fn is_digit(c: char) -> bool {
    48 <= c as u32 <= 57
}

/// The number that a run of digits denotes.
pub open spec fn number_of(s: Seq<char>) -> nat
    decreases s.len(),
{
    if s.len() == 0 {
        0
    } else {
        number_of(s.drop_last()) * 10 + (s.last() as u32 - 48) as nat
    }
}

/// `s` without the plus sign that a numeral may start with.
pub open spec fn unsigned_part(s: Seq<char>) -> Seq<char> {
    if s.len() > 0 && s[0] == '+' {
        s.subrange(1, s.len() as int)
    } else {
        s
    }
}

/// The number that `s` denotes, where it is a numeral of a number up to `max`.
pub open spec fn parse_of(s: Seq<char>, max: nat) -> Option<nat> {
    let d = unsigned_part(s);
    if d.len() > 0 && (forall|i: int| 0 <= i < d.len() ==> is_digit(#[trigger] d[i])) && number_of(d)
        <= max {
        Some(number_of(d))
    } else {
        None
    }
}

/// A longer run of digits denotes no smaller number.
proof fn lemma_number_grows(d: Seq<char>, i: int, j: int)
    requires
        0 <= i <= j <= d.len(),
        forall|k: int| 0 <= k < d.len() ==> is_digit(#[trigger] d[k]),
    ensures
        number_of(d.take(i)) <= number_of(d.take(j)),
    decreases j - i,
{
    if i < j {
        lemma_number_grows(d, i, j - 1);
        assert(d.take(j).drop_last() =~= d.take(j - 1));
        assert(d.take(j).last() == d[j - 1]);
        assert(is_digit(d[j - 1]));
    }
}

/// The number that `s` denotes, where it is the numeral of a machine word.
pub fn parse_size(s: &str) -> (r: Option<usize>)
    ensures
        r is Some <==> parse_of(s@, usize::MAX as nat) is Some,
        r matches Some(n) ==> parse_of(s@, usize::MAX as nat) == Some(n as nat),
{
    let v = chars_of(s);
    let mut i: usize = 0;
    if v.len() > 0 && v[0] == '+' {
        i = 1;
    }
    let ghost start = i as int;
    let ghost d = unsigned_part(s@);
    proof {
        assert(d =~= v@.subrange(start, v@.len() as int));
        assert(d.take(0) =~= Seq::<char>::empty());
    }
    if i >= v.len() {
        return None;
    }
    let mut j: usize = i;
    while j < v.len()
        invariant
            start <= j <= v.len(),
            d == v@.subrange(start, v@.len() as int),
            d == unsigned_part(s@),
            0 <= start,
            forall|k: int| 0 <= k < j - start ==> is_digit(#[trigger] d[k]),
        decreases v.len() - j,
    {
        let n: u32 = v[j] as u32;
        if n < 48 || n > 57 {
            proof {
                assert(d[j - start] == v@[j as int]);
                assert(!is_digit(d[j - start]));
            }
            return None;
        }
        proof {
            assert(d[j - start] == v@[j as int]);
        }
        j = j + 1;
    }
    let mut total: usize = 0;
    while i < v.len()
        invariant
            start <= i <= v.len(),
            0 <= start,
            d == v@.subrange(start, v@.len() as int),
            d == unsigned_part(s@),
            d.len() > 0,
            forall|k: int| 0 <= k < d.len() ==> is_digit(#[trigger] d[k]),
            total == number_of(d.take(i - start)),
        decreases v.len() - i,
    {
        let ghost k = i - start;
        proof {
            assert(d[k] == v@[i as int]);
            assert(is_digit(d[k]));
            assert(d.take(k + 1).drop_last() =~= d.take(k));
            assert(d.take(k + 1).last() == d[k]);
            lemma_number_grows(d, k + 1, d.len() as int);
            assert(d.take(d.len() as int) =~= d);
        }
        let digit: usize = (v[i] as u32 - 48) as usize;
        match total.checked_mul(10) {
            Some(t) => match t.checked_add(digit) {
                Some(u) => {
                    total = u;
                },
                None => {
                    return None;
                },
            },
            None => {
                return None;
            },
        }
        i = i + 1;
    }
    proof {
        assert(d.take(d.len() as int) =~= d);
    }
    Some(total)
}

// ---------------------------------------------------------------------------
// Order
// ---------------------------------------------------------------------------

/// `a` comes before `b`, character by character.
pub open spec fn text_lt(a: Seq<char>, b: Seq<char>) -> bool
    decreases a.len(),
{
    if b.len() == 0 {
        false
    } else if a.len() == 0 {
        true
    } else if a[0] != b[0] {
        (a[0] as u32) < (b[0] as u32)
    } else {
        text_lt(a.subrange(1, a.len() as int), b.subrange(1, b.len() as int))
    }
}

/// Whether `a` comes before `b`.
pub fn text_less(a: &str, b: &str) -> (r: bool)
    ensures
        r == text_lt(a@, b@),
{
    let x = chars_of(a);
    let y = chars_of(b);
    let mut i: usize = 0;
    proof {
        assert(x@.subrange(0, x@.len() as int) =~= x@);
        assert(y@.subrange(0, y@.len() as int) =~= y@);
    }
    while i < x.len() && i < y.len()
        invariant
            x@ == a@,
            y@ == b@,
            i <= x.len(),
            i <= y.len(),
            text_lt(x@, y@) == text_lt(
                x@.subrange(i as int, x@.len() as int),
                y@.subrange(i as int, y@.len() as int),
            ),
        decreases x.len() - i,
    {
        proof {
            let p = x@.subrange(i as int, x@.len() as int);
            let q = y@.subrange(i as int, y@.len() as int);
            assert(p[0] == x@[i as int]);
            assert(q[0] == y@[i as int]);
            assert(p.subrange(1, p.len() as int) =~= x@.subrange(i + 1, x@.len() as int));
            assert(q.subrange(1, q.len() as int) =~= y@.subrange(i + 1, y@.len() as int));
        }
        if x[i] != y[i] {
            return (x[i] as u32) < (y[i] as u32);
        }
        i = i + 1;
    }
    i < y.len()
}

/// `s`, which is in order, with `x` put where it belongs.
pub open spec fn insert_of(s: Seq<Seq<char>>, x: Seq<char>) -> Seq<Seq<char>>
    decreases s.len(),
{
    if s.len() == 0 || !text_lt(x, s.last()) {
        s.push(x)
    } else {
        insert_of(s.drop_last(), x).push(s.last())
    }
}

/// The texts of `s` in order.
pub open spec fn sorted_of(s: Seq<Seq<char>>) -> Seq<Seq<char>>
    decreases s.len(),
{
    if s.len() == 0 {
        Seq::empty()
    } else {
        insert_of(sorted_of(s.drop_last()), s.last())
    }
}

/// The texts of `v` in order.
pub fn sort_texts(v: &Vec<String>) -> (r: Vec<String>)
    ensures
        texts(r@) == sorted_of(texts(v@)),
{
    let mut r: Vec<String> = Vec::new();
    let mut i: usize = 0;
    proof {
        assert(texts(v@).take(0) =~= Seq::empty());
        assert(texts(r@) =~= Seq::empty());
    }
    while i < v.len()
        invariant
            i <= v.len(),
            texts(r@) == sorted_of(texts(v@).take(i as int)),
        decreases v.len() - i,
    {
        proof {
            assert(texts(v@).take(i + 1).drop_last() =~= texts(v@).take(i as int));
            assert(texts(v@).take(i + 1).last() == v@[i as int]@);
        }
        insert_sorted(&mut r, v[i].clone());
        i = i + 1;
    }
    proof {
        assert(texts(v@).take(i as int) =~= texts(v@));
    }
    r
}

/// Puts `x` where it belongs in a list that is in order.
fn insert_sorted(r: &mut Vec<String>, x: String)
    ensures
        texts(final(r)@) == insert_of(texts(old(r)@), x@),
{
    let mut at: usize = r.len();
    let ghost all = texts(r@);
    let ghost tail = Seq::<Seq<char>>::empty();
    proof {
        assert(all.take(at as int) =~= all);
        assert(insert_of(all, x@) =~= insert_of(all.take(at as int), x@) + tail);
    }
    while at > 0 && text_less(x.as_str(), r[at - 1].as_str())
        invariant
            at <= r.len(),
            all == texts(r@),
            r@ == old(r)@,
            tail == all.subrange(at as int, all.len() as int),
            insert_of(all, x@) == insert_of(all.take(at as int), x@) + tail,
        decreases at,
    {
        proof {
            let p = all.take(at as int);
            assert(p.last() == r@[at - 1]@);
            assert(p.drop_last() =~= all.take(at - 1));
            let t2 = all.subrange(at - 1, all.len() as int);
            assert(insert_of(p.drop_last(), x@).push(p.last()) + tail =~= insert_of(
                all.take(at - 1),
                x@,
            ) + t2);
            tail = t2;
        }
        at = at - 1;
    }
    proof {
        let p = all.take(at as int);
        if at > 0 {
            assert(p.last() == r@[at - 1]@);
        }
        assert(insert_of(p, x@) == p.push(x@));
        assert(all.insert(at as int, x@) =~= p.push(x@) + tail);
    }
    r.insert(at, x);
    proof {
        assert(texts(r@) =~= all.insert(at as int, x@));
    }
}

// ---------------------------------------------------------------------------
// Bytes
// ---------------------------------------------------------------------------

/// How many bytes UTF-8 takes for a character.
pub open spec fn width_of(c: char) -> nat {
    vstd::utf8::encode_scalar(c as u32).len()
}

/// How many bytes UTF-8 takes for a text.
pub open spec fn byte_len_of(s: Seq<char>) -> nat {
    vstd::utf8::encode_utf8(s).len()
}

/// The first `n` bytes of `s` are whole characters.
pub open spec fn cuts_cleanly(s: Seq<char>, n: int) -> bool
    decreases s.len(),
{
    if n == 0 {
        true
    } else if n < 0 || s.len() == 0 {
        false
    } else {
        cuts_cleanly(s.drop_first(), n - width_of(s[0]))
    }
}

/// The characters that the first `n` bytes of `s` hold.
pub open spec fn byte_prefix_of(s: Seq<char>, n: int) -> Seq<char>
    decreases s.len(),
{
    if n <= 0 || s.len() == 0 {
        Seq::empty()
    } else {
        seq![s[0]] + byte_prefix_of(s.drop_first(), n - width_of(s[0]))
    }
}

/// The first bytes of a text hold no more characters than the text.
pub proof fn lemma_byte_prefix(s: Seq<char>, n: int)
    ensures
        byte_prefix_of(s, n).len() <= s.len(),
    decreases s.len(),
{
    if n > 0 && s.len() > 0 {
        lemma_byte_prefix(s.drop_first(), n - width_of(s[0]));
    }
}

/// A text takes the bytes of its characters, one for each ASCII character.
pub proof fn lemma_byte_len(s: Seq<char>)
    ensures
        s.len() == 0 ==> byte_len_of(s) == 0,
        s.len() > 0 ==> byte_len_of(s) == width_of(s[0]) + byte_len_of(s.drop_first()) && 1
            <= width_of(s[0]) <= 4 && ((s[0] as u32) < 128 ==> width_of(s[0]) == 1),
{
}

/// The bytes of the first `p` characters of a text are whole characters: those.
pub proof fn lemma_byte_cut(s: Seq<char>, p: int)
    requires
        0 <= p <= s.len(),
    ensures
        cuts_cleanly(s, byte_len_of(s.take(p)) as int),
        byte_prefix_of(s, byte_len_of(s.take(p)) as int) == s.take(p),
    decreases p,
{
    let front = s.take(p);
    lemma_byte_len(front);
    if p > 0 {
        let rest = s.drop_first();
        assert(front.drop_first() =~= rest.take(p - 1));
        assert(front[0] == s[0]);
        lemma_byte_cut(rest, p - 1);
        assert(seq![s[0]] + rest.take(p - 1) =~= front);
    } else {
        assert(front =~= Seq::<char>::empty());
    }
}

/// How many bytes UTF-8 takes for `c`.
pub fn char_width(c: char) -> (n: usize)
    ensures
        n == width_of(c),
        1 <= n <= 4,
{
    let u: u32 = c as u32;
    if u <= 0x7f {
        1
    } else if u <= 0x7ff {
        2
    } else if u <= 0xffff {
        3
    } else {
        4
    }
}

/// How many bytes UTF-8 takes for `s`.
pub fn byte_len(s: &str) -> (n: usize)
    ensures
        n == byte_len_of(s@),
{
    s.as_bytes().len()
}

/// The characters that the first `n` bytes of `s` hold.
pub fn byte_prefix(s: &str, n: usize) -> (r: String)
    requires
        cuts_cleanly(s@, n as int),
    ensures
        r@ == byte_prefix_of(s@, n as int),
{
    let v = chars_of(s);
    let mut r = String::new();
    let mut left: usize = n;
    let mut i: usize = 0;
    proof {
        assert(v@.skip(0) =~= v@);
        assert(r@ + byte_prefix_of(v@, n as int) =~= byte_prefix_of(v@, n as int));
    }
    while left > 0
        invariant
            i <= v.len(),
            cuts_cleanly(v@.skip(i as int), left as int),
            byte_prefix_of(v@, n as int) == r@ + byte_prefix_of(v@.skip(i as int), left as int),
        decreases left,
    {
        let ghost rest = v@.skip(i as int);
        proof {
            assert(rest[0] == v@[i as int]);
            assert(rest.drop_first() =~= v@.skip(i + 1));
            assert(cuts_cleanly(rest.drop_first(), left - width_of(rest[0])));
        }
        let w: usize = char_width(v[i]);
        proof {
            assert(left - w >= 0);
            let t = byte_prefix_of(rest.drop_first(), left - w);
            assert(r@ + (seq![rest[0]] + t) =~= r@.push(rest[0]) + t);
        }
        r.push(v[i]);
        left = left - w;
        i = i + 1;
    }
    proof {
        assert(r@ + Seq::<char>::empty() =~= r@);
    }
    r
}

/// Whether the first `n` bytes of `s` are whole characters.
pub fn cuts_at(s: &str, n: usize) -> (r: bool)
    ensures
        r == cuts_cleanly(s@, n as int),
{
    let v = chars_of(s);
    let mut left: usize = n;
    let mut i: usize = 0;
    proof {
        assert(v@.skip(0) =~= v@);
    }
    while left > 0 && i < v.len()
        invariant
            i <= v.len(),
            v@ == s@,
            cuts_cleanly(s@, n as int) == cuts_cleanly(v@.skip(i as int), left as int),
        decreases v.len() - i,
    {
        let ghost rest = v@.skip(i as int);
        proof {
            assert(rest[0] == v@[i as int]);
            assert(rest.drop_first() =~= v@.skip(i + 1));
        }
        let w: usize = char_width(v[i]);
        if w > left {
            proof {
                assert(!cuts_cleanly(rest.drop_first(), left - w));
            }
            return false;
        }
        left = left - w;
        i = i + 1;
    }
    left == 0
}

/// The numeral of a number is made of digits and denotes it.
pub proof fn lemma_dec_reads(n: nat)
    ensures
        dec_of(n).len() > 0,
        forall|i: int| 0 <= i < dec_of(n).len() ==> is_digit(#[trigger] dec_of(n)[i]),
        number_of(dec_of(n)) == n,
    decreases n,
{
    if n < 10 {
        let d = dec_of(n);
        assert(d.drop_last() =~= Seq::<char>::empty());
        assert(number_of(d.drop_last()) == 0);
    } else {
        lemma_dec_reads(n / 10);
        let d = dec_of(n);
        assert(d.drop_last() =~= dec_of(n / 10));
        assert forall|i: int| 0 <= i < d.len() implies is_digit(#[trigger] d[i]) by {
            if i < d.len() - 1 {
                assert(d[i] == dec_of(n / 10)[i]);
            }
        }
    }
}

/// A numeral is read as the number that it was written for.
pub proof fn law_number_is_read_back(n: nat, max: nat)
    requires
        n <= max,
    ensures
        parse_of(dec_of(n), max) == Some(n),
{
    lemma_dec_reads(n);
    assert(is_digit(dec_of(n)[0]));
    assert(unsigned_part(dec_of(n)) == dec_of(n));
}

/// How many characters stand before the part `i` of parts that are joined.
pub open spec fn place_of(parts: Seq<Seq<char>>, sep: Seq<char>, i: int) -> int
    decreases i,
{
    if i <= 0 {
        0
    } else {
        place_of(parts, sep, i - 1) + parts[i - 1].len() + sep.len()
    }
}

proof fn lemma_place(parts: Seq<Seq<char>>, sep: Seq<char>, i: int)
    requires
        0 <= i < parts.len(),
    ensures
        0 <= place_of(parts, sep, i),
        i < parts.len() - 1 ==> place_of(parts.drop_last(), sep, i) == place_of(parts, sep, i),
    decreases i,
{
    if i > 0 {
        lemma_place(parts, sep, i - 1);
    }
}

proof fn lemma_join_length(parts: Seq<Seq<char>>, sep: Seq<char>)
    requires
        parts.len() > 0,
    ensures
        join_of(parts, sep).len() == place_of(parts, sep, parts.len() - 1) + parts.last().len(),
    decreases parts.len(),
{
    if parts.len() > 1 {
        let d = parts.drop_last();
        lemma_join_length(d, sep);
        lemma_place(parts, sep, d.len() - 1);
    }
}

proof fn lemma_occurs_in_front(a: Seq<char>, b: Seq<char>, n: Seq<char>, p: int)
    requires
        occurs_at(a, n, p),
    ensures
        occurs_at(a + b, n, p),
{
    assert((a + b).subrange(p, p + n.len()) =~= a.subrange(p, p + n.len()));
}

/// Parts that are joined stand one after the other, the first at the start, with the
/// separator between two neighbours, and nothing follows the last.
pub proof fn law_parts_stand_in_a_row(parts: Seq<Seq<char>>, sep: Seq<char>, i: int)
    requires
        0 <= i < parts.len(),
    ensures
        occurs_at(join_of(parts, sep), parts[i], place_of(parts, sep, i)),
        i > 0 ==> occurs_at(join_of(parts, sep), sep, place_of(parts, sep, i) - sep.len()),
        i == parts.len() - 1 ==> join_of(parts, sep).len() == place_of(parts, sep, i)
            + parts[i].len(),
    decreases parts.len(),
{
    let all = join_of(parts, sep);
    lemma_join_length(parts, sep);
    lemma_place(parts, sep, i);
    if parts.len() == 1 {
        assert(all.subrange(0, all.len() as int) =~= parts[0]);
    } else {
        let d = parts.drop_last();
        let front = join_of(d, sep);
        assert(all =~= front + (sep + parts.last()));
        if i < d.len() {
            law_parts_stand_in_a_row(d, sep, i);
            lemma_occurs_in_front(front, sep + parts.last(), parts[i], place_of(d, sep, i));
            if i > 0 {
                lemma_occurs_in_front(
                    front,
                    sep + parts.last(),
                    sep,
                    place_of(d, sep, i) - sep.len(),
                );
            }
        } else {
            lemma_join_length(d, sep);
            lemma_place(parts, sep, i - 1);
            let p = place_of(parts, sep, i);
            assert(p == front.len() + sep.len());
            assert(all.subrange(p, p + parts[i].len()) =~= parts[i]);
            assert(all.subrange(p - sep.len(), p) =~= sep);
        }
    }
}

/// A part that is joined before another ends before it.
pub proof fn lemma_place_grows(parts: Seq<Seq<char>>, sep: Seq<char>, i: int, j: int)
    requires
        0 <= i < j < parts.len(),
    ensures
        place_of(parts, sep, i) + parts[i].len() + sep.len() <= place_of(parts, sep, j),
    decreases j - i,
{
    if i < j - 1 {
        lemma_place_grows(parts, sep, i, j - 1);
    }
}

/// The first bytes of a text that are whole characters are those of its first characters.
pub proof fn lemma_clean_cut(s: Seq<char>, b: int) -> (n: int)
    requires
        cuts_cleanly(s, b),
    ensures
        0 <= n <= s.len(),
        byte_len_of(s.take(n)) == b,
        byte_prefix_of(s, b) == s.take(n),
    decreases s.len(),
{
    if b == 0 {
        assert(s.take(0) =~= Seq::<char>::empty());
        lemma_byte_len(s.take(0));
        0
    } else {
        lemma_byte_len(s);
        let rest = s.drop_first();
        let n = lemma_clean_cut(rest, b - width_of(s[0]));
        let front = s.take(n + 1);
        lemma_byte_len(front);
        assert(front.drop_first() =~= rest.take(n));
        assert(seq![s[0]] + rest.take(n) =~= front);
        n + 1
    }
}

} // verus!
