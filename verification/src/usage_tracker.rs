//! How many tokens the models used.

use crate::json::{
    add_numbers, copy_object, empty_object, float_total, json_list, json_object, lemma_json_list,
    lemma_json_object, lemma_object_insert, new_object, push_json, Json, JsonSpec,
};
use crate::strmap::StrMap;
use crate::text::{dec, dec_int, dec_signed};
use vstd::prelude::*;

verus! {

/// The text of a number; zero for what is none.
pub open spec fn number_text(j: JsonSpec) -> Seq<char> {
    match j {
        JsonSpec::Int(n) => dec_int(n),
        JsonSpec::Float(t) => t,
        _ => "0"@,
    }
}

/// What a key has in the merge of two objects that both have it.
pub open spec fn merged_member(x: JsonSpec, y: JsonSpec, flip: bool, deep: JsonSpec) -> JsonSpec {
    if x is Object || y is Object {
        deep
    } else if flip {
        float_total(number_text(x), number_text(y))
    } else {
        float_total(number_text(y), number_text(x))
    }
}

/// The merge of two usage entries: objects are merged key by key, numbers are
/// added, and an object wins over what is none. `flip` says that the second comes
/// first where numbers are added.
pub open spec fn merged(a: JsonSpec, b: JsonSpec, flip: bool) -> JsonSpec
    decreases a,
{
    match (a, b) {
        (JsonSpec::Object(ma), JsonSpec::Object(mb)) => JsonSpec::Object(
            Map::new(
                |k: Seq<char>| ma.contains_key(k) || mb.contains_key(k),
                |k: Seq<char>|
                    if ma.contains_key(k) {
                        if mb.contains_key(k) {
                            merged_member(ma[k], mb[k], flip, merged(ma[k], mb[k], !flip))
                        } else {
                            ma[k]
                        }
                    } else {
                        mb[k]
                    },
            ),
        ),
        (JsonSpec::Object(_), _) => a,
        (_, JsonSpec::Object(_)) => b,
        _ => if flip {
            float_total(number_text(b), number_text(a))
        } else {
            float_total(number_text(a), number_text(b))
        },
    }
}

/// The total of usage entries.
pub open spec fn total_usage(entries: Seq<JsonSpec>) -> JsonSpec
    decreases entries.len(),
{
    if entries.len() == 0 {
        JsonSpec::Object(empty_object())
    } else {
        merged(total_usage(entries.drop_last()), entries.last(), false)
    }
}

/// What the entries of each model say.
pub open spec fn usage_of(m: StrMap<Vec<Json>>) -> Map<Seq<char>, Seq<JsonSpec>> {
    m@.map_values(|v: Vec<Json>| json_list(v@))
}

/// The usage of models.
#[derive(Debug)]
pub struct UsageTracker {
    /// The entries of each model.
    pub usage_data: StrMap<Vec<Json>>,
}

fn number_text_of(j: &Json) -> (r: String)
    ensures
        r@ == number_text(j@),
{
    match j {
        Json::Unsigned(n) => dec(*n),
        Json::Signed(n) => dec_signed(*n),
        Json::Float(f) => f.as_text().to_string(),
        _ => "0".to_string(),
    }
}

fn merge_flipped(a: &Json, b: &Json, flip: bool) -> (r: Json)
    ensures
        r@ == merged(a@, b@, flip),
    decreases a,
{
    match (a, b) {
        (Json::Object(ma), Json::Object(mb)) => {
            let mut result = copy_object(mb);
            let ghost am = json_object(*ma);
            let ghost bm = json_object(*mb);
            let ghost keys = ma.keys();
            let mut i: usize = 0;
            proof {
                use_type_invariant(ma);
                use_type_invariant(mb);
                ma.lemma_shape();
                ma.lemma_entries();
                lemma_json_object(*ma);
                lemma_json_object(*mb);
            }
            let n: usize = ma.len();
            while i < n
                invariant
                    *a == Json::Object(*ma),
                    n == keys.len(),
                    i <= n,
                    keys == ma.keys(),
                    keys.no_duplicates(),
                    ma.list() == ma.entries@,
                    keys.len() == ma.list().len(),
                    am == json_object(*ma),
                    bm == json_object(*mb),
                    ma.wf(),
                    mb.wf(),
                    forall|k: int|
                        0 <= k < keys.len() ==> ma@.contains_key(#[trigger] keys[k]) && ma@[keys[k]]
                            == ma.list()[k].1,
                    forall|k: Seq<char>|
                        #[trigger] json_object(result).contains_key(k) <==> (bm.contains_key(k)
                            || keys.take(i as int).contains(k)),
                    forall|k: Seq<char>| #[trigger]
                        json_object(result).contains_key(k) ==> json_object(result)[k]
                            == if keys.take(i as int).contains(k) {
                            if bm.contains_key(k) {
                                merged_member(am[k], bm[k], flip, merged(am[k], bm[k], !flip))
                            } else {
                                am[k]
                            }
                        } else {
                            bm[k]
                        },
                decreases n - i,
            {
                let ghost key = keys[i as int];
                proof {
                    lemma_json_object(*ma);
                    lemma_json_object(*mb);
                    assert(ma@.contains_key(keys[i as int]));
                    assert(decreases_to!(*a => a->Object_0));
                    assert(decreases_to!(ma => ma.entries));
                    assert(decreases_to!(ma.entries@ => ma.entries@[i as int]));
                    assert(decreases_to!(ma.entries@[i as int] => ma.entries@[i as int].1));
                }
                let k = ma.key_at(i);
                let v = ma.value_at(i);
                let merged_value = match mb.get(k.as_str()) {
                    Some(cv) => if cv.is_object() || v.is_object() {
                        merge_flipped(v, cv, !flip)
                    } else if flip {
                        add_numbers(number_text_of(v).as_str(), number_text_of(cv).as_str())
                    } else {
                        add_numbers(number_text_of(cv).as_str(), number_text_of(v).as_str())
                    },
                    None => v.copy(),
                };
                let ghost before = result;
                let ghost mv = merged_value;
                proof {
                    use_type_invariant(&result);
                }
                result.insert(k.clone(), merged_value);
                proof {
                    use_type_invariant(&result);
                    lemma_object_insert(before, result, key, mv);
                    let a1 = keys.take(i as int);
                    let a2 = keys.take(i + 1);
                    assert(a2 =~= a1.push(key));
                    assert forall|x: Seq<char>| a2.contains(x) <==> (a1.contains(x) || x == key) by {
                        if a1.contains(x) {
                            let j = choose|j: int| 0 <= j < a1.len() && a1[j] == x;
                            assert(a2[j] == x);
                        }
                        assert(a2[i as int] == key);
                    }
                }
                i = i + 1;
            }
            proof {
                assert(keys.take(i as int) =~= keys);
                use_type_invariant(ma);
                ma.lemma_shape();
                let want = merged(a@, b@, flip)->Object_0;
                assert(json_object(result) =~= want);
            }
            Json::Object(result)
        },
        (Json::Object(_), _) => a.copy(),
        (_, Json::Object(_)) => b.copy(),
        _ => if flip {
            add_numbers(number_text_of(b).as_str(), number_text_of(a).as_str())
        } else {
            add_numbers(number_text_of(a).as_str(), number_text_of(b).as_str())
        },
    }
}

/// The merge of two usage entries.
pub fn merge_usage_entries(a: &Json, b: &Json) -> (r: Json)
    ensures
        r@ == merged(a@, b@, false),
{
    merge_flipped(a, b, false)
}

impl UsageTracker {
    /// A tracker without entries.
    pub fn new() -> (r: Self)
        ensures
            usage_of(r.usage_data) == Map::<Seq<char>, Seq<JsonSpec>>::empty(),
            r.usage_data.keys() == Seq::<Seq<char>>::empty(),
    {
        let usage_data: StrMap<Vec<Json>> = StrMap::new();
        proof {
            assert(usage_of(usage_data) =~= Map::<Seq<char>, Seq<JsonSpec>>::empty());
        }
        UsageTracker { usage_data }
    }

    /// Adds an entry of a model. An empty object is left out.
    pub fn add_usage(&mut self, lm: &str, usage_entry: Json)
        ensures
            usage_of(final(self).usage_data) == added_usage(
                usage_of(old(self).usage_data),
                lm@,
                usage_entry@,
            ),
    {
        if let Json::Object(m) = &usage_entry {
            proof {
                use_type_invariant(m);
                m.lemma_shape();
                lemma_json_object(*m);
            }
            if m.is_empty() {
                proof {
                    assert(json_object(*m) =~= empty_object());
                }
                return ;
            }
            proof {
                assert(m@.contains_key(m.keys()[0]));
                assert(json_object(*m).contains_key(m.keys()[0]));
                assert(json_object(*m) != empty_object());
            }
        }
        let ghost before = usage_of(self.usage_data);
        let ghost was = self.usage_data@;
        let ghost entry = usage_entry@;
        let mut list = match self.usage_data.replace(lm.to_owned(), Vec::new()) {
            Some(v) => v,
            None => Vec::new(),
        };
        proof {
            assert(json_list(list@) == if before.contains_key(lm@) {
                before[lm@]
            } else {
                Seq::empty()
            });
        }
        push_json(&mut list, usage_entry);
        self.usage_data.insert(lm.to_owned(), list);
        proof {
            assert(usage_of(self.usage_data) =~= added_usage(before, lm@, entry));
        }
    }

    /// The total of each model.
    pub fn get_total_tokens(&self) -> (r: StrMap<Json>)
        ensures
            json_object(r) == usage_of(self.usage_data).map_values(
                |e: Seq<JsonSpec>| total_usage(e),
            ),
            r.keys() == self.usage_data.keys(),
    {
        let ghost keys = self.usage_data.keys();
        let ghost want = usage_of(self.usage_data).map_values(|e: Seq<JsonSpec>| total_usage(e));
        let mut result = new_object();
        let n: usize = self.usage_data.len();
        let mut i: usize = 0;
        proof {
            use_type_invariant(&result);
            use_type_invariant(&self.usage_data);
            result.lemma_shape();
            self.usage_data.lemma_shape();
            assert(result.keys() =~= keys.take(0));
        }
        while i < n
            invariant
                n == keys.len(),
                i <= n,
                keys == self.usage_data.keys(),
                keys.no_duplicates(),
                want == usage_of(self.usage_data).map_values(|e: Seq<JsonSpec>| total_usage(e)),
                forall|k: int|
                    0 <= k < n ==> self.usage_data@.contains_key(#[trigger] keys[k]),
                result.keys() == keys.take(i as int),
                forall|k: Seq<char>|
                    #[trigger] json_object(result).contains_key(k) <==> keys.take(
                        i as int,
                    ).contains(k),
                forall|k: Seq<char>| #[trigger]
                    json_object(result).contains_key(k) ==> json_object(result)[k] == want[k],
            decreases n - i,
        {
            let k = self.usage_data.key_at(i);
            let entries = self.usage_data.value_at(i);
            let total = total_of(entries);
            let ghost before = result;
            let ghost t = total;
            proof {
                use_type_invariant(&result);
                result.lemma_shape();
                lemma_json_object(result);
                assert(self.usage_data@.contains_key(keys[i as int]));
                assert(want[k@] == t@);
                if result@.contains_key(k@) {
                    let j = choose|j: int| 0 <= j < i && keys.take(i as int)[j] == k@;
                    assert(keys[j] == keys[i as int]);
                }
            }
            result.insert(k.clone(), total);
            proof {
                use_type_invariant(&result);
                lemma_object_insert(before, result, keys[i as int], t);
                let a1 = keys.take(i as int);
                let a2 = keys.take(i + 1);
                assert(a2 =~= a1.push(keys[i as int]));
                assert forall|x: Seq<char>| a2.contains(x) <==> (a1.contains(x) || x
                    == keys[i as int]) by {
                    if a1.contains(x) {
                        let j = choose|j: int| 0 <= j < a1.len() && a1[j] == x;
                        assert(a2[j] == x);
                    }
                    assert(a2[i as int] == keys[i as int]);
                }
            }
            i = i + 1;
        }
        proof {
            assert(keys.take(i as int) =~= keys);
            use_type_invariant(&self.usage_data);
            self.usage_data.lemma_shape();
            assert(json_object(result) =~= want);
        }
        result
    }
}

/// The entries of the models with one added. An empty object is left out.
pub open spec fn added_usage(
    u: Map<Seq<char>, Seq<JsonSpec>>,
    lm: Seq<char>,
    entry: JsonSpec,
) -> Map<Seq<char>, Seq<JsonSpec>> {
    if entry == JsonSpec::Object(empty_object()) {
        u
    } else if u.contains_key(lm) {
        u.insert(lm, u[lm].push(entry))
    } else {
        u.insert(lm, seq![entry])
    }
}

/// The total of usage entries.
fn total_of(entries: &Vec<Json>) -> (r: Json)
    ensures
        r@ == total_usage(json_list(entries@)),
{
    let ghost all = json_list(entries@);
    let mut total = Json::Object(new_object());
    let mut i: usize = 0;
    proof {
        lemma_json_list(entries@);
        assert(all.take(0) =~= Seq::<JsonSpec>::empty());
    }
    while i < entries.len()
        invariant
            i <= entries.len(),
            all.len() == entries@.len(),
            forall|k: int| 0 <= k < entries@.len() ==> #[trigger] all[k] == entries@[k]@,
            total@ == total_usage(all.take(i as int)),
        decreases entries.len() - i,
    {
        proof {
            assert(all.take(i + 1).drop_last() =~= all.take(i as int));
            assert(all.take(i + 1).last() == entries@[i as int]@);
        }
        total = merge_usage_entries(&total, &entries[i]);
        i = i + 1;
    }
    proof {
        assert(all.take(i as int) =~= all);
    }
    total
}

impl Default for UsageTracker {
    /// A tracker without entries.
    fn default() -> (r: Self)
        ensures
            usage_of(r.usage_data) == Map::<Seq<char>, Seq<JsonSpec>>::empty(),
    {
        UsageTracker::new()
    }
}

/// An object that is the only entry is the total.
pub proof fn law_one_entry_is_the_total(m: Map<Seq<char>, JsonSpec>)
    ensures
        total_usage(seq![JsonSpec::Object(m)]) == JsonSpec::Object(m),
{
    let one = seq![JsonSpec::Object(m)];
    assert(one.drop_last() =~= Seq::<JsonSpec>::empty());
    let start = JsonSpec::Object(empty_object());
    assert(total_usage(one.drop_last()) == start);
    let r = merged(start, JsonSpec::Object(m), false)->Object_0;
    assert(r =~= m);
}

} // verus!
