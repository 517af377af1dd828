//! The trajectory of an agent: what it thought and did at each step, and what came
//! of it.

use crate::aggregation::text_map;
use crate::json::{json_object, lemma_json_object, Json, JsonSpec};
use crate::strmap::StrMap;
use crate::text::{
    chars_of, dec_of, dec_size, is_digit, law_number_is_read_back, lemma_dec_reads, parse_of,
    parse_size, same, slice_text, texts,
};
use vstd::prelude::*;

verus! {

/// The key of what a step has of a kind.
pub open spec fn step_key(kind: Seq<char>, step: nat) -> Seq<char> {
    kind + dec_of(step)
}

/// The key of what a step has of a kind.
pub fn key_of_step(kind: &str, step: usize) -> (r: String)
    ensures
        r@ == step_key(kind@, step as nat),
{
    let mut r = kind.to_owned();
    r.append(dec_size(step).as_str());
    r
}

/// The texts of a trajectory in JSON.
pub open spec fn texts_object(m: Map<Seq<char>, Seq<char>>) -> Map<Seq<char>, JsonSpec> {
    m.map_values(|t: Seq<char>| JsonSpec::Text(t))
}

/// Puts a text under a key.
pub fn put_entry(m: &mut StrMap<String>, key: String, value: String)
    ensures
        text_map(*final(m)) == text_map(*old(m)).insert(key@, value@),
        final(m).keys() == if old(m)@.contains_key(key@) {
            old(m).keys()
        } else {
            old(m).keys().push(key@)
        },
{
    let ghost before = text_map(*m);
    let ghost k = key@;
    let ghost v = value@;
    m.insert(key, value);
    proof {
        assert(text_map(*m) =~= before.insert(k, v));
    }
}

/// An empty trajectory.
pub fn no_entries() -> (r: StrMap<String>)
    ensures
        text_map(r) == Map::<Seq<char>, Seq<char>>::empty(),
        r.keys() == Seq::<Seq<char>>::empty(),
{
    let r: StrMap<String> = StrMap::new();
    proof {
        assert(text_map(r) =~= Map::<Seq<char>, Seq<char>>::empty());
    }
    r
}

/// The texts of a trajectory in JSON.
pub fn texts_to_object(m: &StrMap<String>) -> (r: StrMap<Json>)
    ensures
        json_object(r) == texts_object(text_map(*m)),
        r.keys() == m.keys(),
{
    let ghost keys = m.keys();
    let n: usize = m.len();
    let mut out: Vec<(String, Json)> = Vec::new();
    let mut i: usize = 0;
    proof {
        use_type_invariant(m);
        m.lemma_shape();
    }
    while i < n
        invariant
            n == keys.len(),
            i <= n,
            keys == m.keys(),
            n == m.list().len(),
            out@.len() == i,
            forall|k: int|
                0 <= k < i ==> (#[trigger] out@[k]).0@ == keys[k] && out@[k].1@ == JsonSpec::Text(
                    m.list()[k].1@,
                ),
        decreases n - i,
    {
        out.push((m.key_at(i).clone(), Json::text(m.value_at(i).as_str())));
        i = i + 1;
    }
    proof {
        assert(crate::strmap::entry_keys(out@) =~= keys);
    }
    let r = StrMap::from_entries(out);
    proof {
        use_type_invariant(&r);
        use_type_invariant(m);
        r.lemma_shape();
        m.lemma_shape();
        lemma_json_object(r);
        let want = texts_object(text_map(*m));
        assert forall|k: Seq<char>| #[trigger] want.contains_key(k) implies json_object(r)[k]
            == want[k] by {
            let j = choose|j: int| 0 <= j < keys.len() && keys[j] == k;
            assert(r.list()[j] == out@[j]);
            assert(r@[k] == out@[j].1);
            assert(m@[keys[j]] == m.list()[j].1);
        }
        assert(json_object(r) =~= want);
    }
    r
}

// ---------------------------------------------------------------------------
// Order
// ---------------------------------------------------------------------------

/// Where the last underscore stands.
pub open spec fn last_underscore(s: Seq<char>) -> Option<int>
    decreases s.len(),
{
    if s.len() == 0 {
        None
    } else if s.last() == '_' {
        Some(s.len() - 1)
    } else {
        last_underscore(s.drop_last())
    }
}

/// What stands before the last underscore: the kind of an entry.
pub open spec fn kind_part(key: Seq<char>) -> Seq<char> {
    match last_underscore(key) {
        Some(p) => key.take(p),
        None => key,
    }
}

/// What stands after the last underscore: the step of an entry.
pub open spec fn step_part(key: Seq<char>) -> Seq<char> {
    match last_underscore(key) {
        Some(p) => key.skip(p + 1),
        None => key,
    }
}

/// The place of a kind of entry within a step.
pub open spec fn kind_place(kind: Seq<char>) -> int {
    if kind == "thought"@ {
        0
    } else if kind == "tool_name"@ {
        1
    } else if kind == "tool_args"@ {
        2
    } else if kind == "observation"@ {
        3
    } else {
        4
    }
}

/// The step of an entry; zero where there is no number.
pub open spec fn step_number(key: Seq<char>) -> nat {
    match parse_of(step_part(key), usize::MAX as nat) {
        Some(n) => n,
        None => 0,
    }
}

/// An entry does not come after another.
pub open spec fn key_le(a: Seq<char>, b: Seq<char>) -> bool {
    step_number(a) < step_number(b) || (step_number(a) == step_number(b) && kind_place(
        kind_part(a),
    ) <= kind_place(kind_part(b)))
}

/// Keys in order with one put in, after those of the same place.
pub open spec fn key_inserted(keys: Seq<Seq<char>>, k: Seq<char>) -> Seq<Seq<char>>
    decreases keys.len(),
{
    if keys.len() == 0 || key_le(keys.last(), k) {
        keys.push(k)
    } else {
        key_inserted(keys.drop_last(), k).push(keys.last())
    }
}

/// Keys in the order of their steps.
pub open spec fn in_order(keys: Seq<Seq<char>>) -> Seq<Seq<char>>
    decreases keys.len(),
{
    if keys.len() == 0 {
        Seq::empty()
    } else {
        key_inserted(in_order(keys.drop_last()), keys.last())
    }
}

fn kind_number(kind: &str) -> (r: u8)
    ensures
        r == kind_place(kind@),
{
    if same(kind, "thought") {
        0
    } else if same(kind, "tool_name") {
        1
    } else if same(kind, "tool_args") {
        2
    } else if same(kind, "observation") {
        3
    } else {
        4
    }
}

fn place_of(key: &str) -> (r: (usize, u8))
    ensures
        r.0 == step_number(key@),
        r.1 == kind_place(kind_part(key@)),
{
    let v = chars_of(key);
    let n: usize = v.len();
    let mut p: usize = n;
    proof {
        assert(v@.take(n as int) =~= v@);
    }
    while p > 0
        invariant
            p <= n,
            n == v@.len(),
            v@ == key@,
            last_underscore(key@) == last_underscore(key@.take(p as int)),
        decreases p,
    {
        proof {
            assert(key@.take(p as int).last() == key@[p - 1]);
            assert(key@.take(p as int).drop_last() =~= key@.take(p - 1));
        }
        if v[p - 1] == '_' {
            let kind = slice_text(&v, 0, p - 1);
            let step = slice_text(&v, p, n);
            proof {
                assert(kind@ =~= key@.take(p - 1));
                assert(step@ =~= key@.skip(p as int));
            }
            let number: usize = match parse_size(step.as_str()) {
                Some(x) => x,
                None => 0,
            };
            return (number, kind_number(kind.as_str()));
        }
        p = p - 1;
    }
    let number: usize = match parse_size(key) {
        Some(x) => x,
        None => 0,
    };
    (number, kind_number(key))
}

fn not_after(a: &str, b: &str) -> (r: bool)
    ensures
        r == key_le(a@, b@),
{
    let (an, ak) = place_of(a);
    let (bn, bk) = place_of(b);
    an < bn || (an == bn && ak <= bk)
}

fn insert_key(keys: &mut Vec<String>, k: String)
    ensures
        texts(final(keys)@) == key_inserted(texts(old(keys)@), k@),
{
    let ghost all = texts(keys@);
    let ghost x = k@;
    let mut n: usize = keys.len();
    proof {
        assert(all.take(n as int) =~= all);
        assert(all.skip(n as int) =~= Seq::<Seq<char>>::empty());
        assert(key_inserted(all, x) =~= key_inserted(all.take(n as int), x) + all.skip(n as int));
    }
    while n > 0 && !not_after(keys[n - 1].as_str(), k.as_str())
        invariant
            n <= keys@.len(),
            all == texts(keys@),
            x == k@,
            key_inserted(all, x) == key_inserted(all.take(n as int), x) + all.skip(n as int),
        decreases n,
    {
        proof {
            let a = all.take(n as int);
            assert(a.last() == all[n - 1]);
            assert(a.drop_last() =~= all.take(n - 1));
            assert(key_inserted(all.take(n - 1), x).push(all[n - 1]) + all.skip(n as int)
                =~= key_inserted(all.take(n - 1), x) + all.skip(n - 1));
        }
        n = n - 1;
    }
    proof {
        let a = all.take(n as int);
        if n > 0 {
            assert(a.last() == all[n - 1]);
        }
        assert(key_inserted(a, x) == a.push(x));
        assert(a.push(x) + all.skip(n as int) =~= all.insert(n as int, x));
    }
    keys.insert(n, k);
    proof {
        assert(texts(keys@) =~= all.insert(n as int, x));
    }
}

/// The keys of a trajectory in the order of their steps.
pub fn ordered_keys(m: &StrMap<String>) -> (r: Vec<String>)
    ensures
        texts(r@) == in_order(m.keys()),
{
    let ghost keys = m.keys();
    let n: usize = m.len();
    let mut r: Vec<String> = Vec::new();
    let mut i: usize = 0;
    proof {
        use_type_invariant(m);
        m.lemma_shape();
        assert(keys.take(0) =~= Seq::<Seq<char>>::empty());
        assert(texts(r@) =~= Seq::<Seq<char>>::empty());
    }
    while i < n
        invariant
            n == keys.len(),
            i <= n,
            keys == m.keys(),
            texts(r@) == in_order(keys.take(i as int)),
        decreases n - i,
    {
        proof {
            assert(keys.take(i + 1).drop_last() =~= keys.take(i as int));
            assert(keys.take(i + 1).last() == keys[i as int]);
        }
        insert_key(&mut r, m.key_at(i).clone());
        i = i + 1;
    }
    proof {
        assert(keys.take(i as int) =~= keys);
    }
    r
}

proof fn lemma_key_inserted(keys: Seq<Seq<char>>, k: Seq<char>)
    requires
        forall|i: int, j: int| 0 <= i < j < keys.len() ==> key_le(keys[i], keys[j]),
    ensures
        key_inserted(keys, k).len() == keys.len() + 1,
        key_inserted(keys, k).to_multiset() == keys.to_multiset().insert(k),
        forall|i: int|
            0 <= i < keys.len() + 1 ==> key_le(#[trigger] key_inserted(keys, k)[i], k) || (
            keys.len() > 0 && key_le(key_inserted(keys, k)[i], keys.last())),
        forall|i: int, j: int|
            0 <= i < j < keys.len() + 1 ==> key_le(
                key_inserted(keys, k)[i],
                key_inserted(keys, k)[j],
            ),
    decreases keys.len(),
{
    broadcast use vstd::seq_lib::group_to_multiset_ensures;

    if keys.len() == 0 || key_le(keys.last(), k) {
        let r = keys.push(k);
        assert forall|i: int, j: int| 0 <= i < j < r.len() implies key_le(r[i], r[j]) by {
            if j == keys.len() && i < keys.len() - 1 {
                assert(key_le(keys[i], keys[keys.len() - 1]));
            }
        }
        assert forall|i: int| 0 <= i < r.len() implies key_le(#[trigger] r[i], k) by {
            if i < keys.len() - 1 {
                assert(key_le(keys[i], keys[keys.len() - 1]));
            }
        }
    } else {
        let front = keys.drop_last();
        assert forall|i: int, j: int| 0 <= i < j < front.len() implies key_le(
            front[i],
            front[j],
        ) by {
            assert(key_le(keys[i], keys[j]));
        }
        lemma_key_inserted(front, k);
        let f = key_inserted(front, k);
        let r = f.push(keys.last());
        assert(keys =~= front.push(keys.last()));
        assert(r.to_multiset() =~= keys.to_multiset().insert(k));
        assert forall|i: int| 0 <= i < f.len() implies key_le(#[trigger] f[i], keys.last()) by {
            if front.len() > 0 {
                assert(key_le(keys[front.len() - 1], keys[keys.len() - 1]));
            }
        }
        assert forall|i: int, j: int| 0 <= i < j < r.len() implies key_le(r[i], r[j]) by {
            if j < f.len() {
                assert(key_le(f[i], f[j]));
            } else {
                assert(key_le(f[i], keys.last()));
            }
        }
        assert forall|i: int| 0 <= i < r.len() implies key_le(#[trigger] r[i], keys.last()) by {
            if i < f.len() {
                assert(key_le(f[i], keys.last()));
            }
        }
    }
}

/// The keys in order are the same keys, and none comes before one of an earlier
/// place.
pub proof fn law_trajectory_is_in_order(keys: Seq<Seq<char>>)
    ensures
        in_order(keys).to_multiset() == keys.to_multiset(),
        in_order(keys).len() == keys.len(),
        forall|i: int, j: int|
            0 <= i < j < keys.len() ==> key_le(in_order(keys)[i], in_order(keys)[j]),
    decreases keys.len(),
{
    broadcast use vstd::seq_lib::group_to_multiset_ensures;

    if keys.len() > 0 {
        law_trajectory_is_in_order(keys.drop_last());
        lemma_key_inserted(in_order(keys.drop_last()), keys.last());
        assert(keys =~= keys.drop_last().push(keys.last()));
    }
}

proof fn lemma_last_underscore(kind: Seq<char>, digits: Seq<char>)
    requires
        forall|i: int| 0 <= i < digits.len() ==> is_digit(#[trigger] digits[i]),
        kind.len() > 0,
        kind.last() == '_',
    ensures
        last_underscore(kind + digits) == Some(kind.len() - 1),
    decreases digits.len(),
{
    let s = kind + digits;
    if digits.len() == 0 {
        assert(s =~= kind);
    } else {
        assert(is_digit(digits[digits.len() - 1]));
        assert(s.last() == digits.last());
        assert(s.drop_last() =~= kind + digits.drop_last());
        assert forall|i: int| 0 <= i < digits.drop_last().len() implies is_digit(
            #[trigger] digits.drop_last()[i],
        ) by {
            assert(digits.drop_last()[i] == digits[i]);
        }
        lemma_last_underscore(kind, digits.drop_last());
    }
}

/// An entry of a step goes by the number of the step.
pub proof fn lemma_step_of_key(kind: Seq<char>, step: nat)
    requires
        kind.len() > 0,
        kind.last() == '_',
        step <= usize::MAX,
    ensures
        step_number(step_key(kind, step)) == step,
        kind_part(step_key(kind, step)) == kind.drop_last(),
{
    let d = dec_of(step);
    let key = step_key(kind, step);
    lemma_dec_reads(step);
    lemma_last_underscore(kind, d);
    assert(key.take(kind.len() - 1) =~= kind.drop_last());
    assert(key.skip(kind.len() as int) =~= d);
    law_number_is_read_back(step, usize::MAX as nat);
}

/// The entries of a step come in the order thought, tool, arguments, observation,
/// and all of them before those of a later step.
pub proof fn law_steps_come_in_order(step: nat, later: nat)
    requires
        step < later <= usize::MAX,
    ensures
        key_le(step_key("thought_"@, step), step_key("tool_name_"@, step)),
        key_le(step_key("tool_name_"@, step), step_key("tool_args_"@, step)),
        key_le(step_key("tool_args_"@, step), step_key("observation_"@, step)),
        key_le(step_key("observation_"@, step), step_key("thought_"@, later)),
        !key_le(step_key("tool_name_"@, step), step_key("thought_"@, step)),
        !key_le(step_key("tool_args_"@, step), step_key("tool_name_"@, step)),
        !key_le(step_key("observation_"@, step), step_key("tool_args_"@, step)),
        !key_le(step_key("thought_"@, later), step_key("observation_"@, step)),
{
    reveal_strlit("thought_");
    reveal_strlit("tool_name_");
    reveal_strlit("tool_args_");
    reveal_strlit("observation_");
    reveal_strlit("thought");
    reveal_strlit("tool_name");
    reveal_strlit("tool_args");
    reveal_strlit("observation");
    assert("thought_"@.drop_last() =~= "thought"@);
    assert("tool_name_"@.drop_last() =~= "tool_name"@);
    assert("tool_args_"@.drop_last() =~= "tool_args"@);
    assert("observation_"@.drop_last() =~= "observation"@);
    assert("thought"@.len() == 7 && "tool_name"@.len() == 9 && "observation"@.len() == 11);
    assert("tool_args"@.len() == 9 && "tool_args"@[5] != "tool_name"@[5]);
    lemma_step_of_key("thought_"@, step);
    lemma_step_of_key("tool_name_"@, step);
    lemma_step_of_key("tool_args_"@, step);
    lemma_step_of_key("observation_"@, step);
    lemma_step_of_key("thought_"@, later);
}

} // verus!
