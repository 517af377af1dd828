//! Predictions: the fields of a reply, with all completions and a score.

use crate::example::{copy_values, value_map, Example, ExampleSpec};
use crate::json::JsonFloat;
use crate::lm::{copy_float, opt_float};
use crate::signature::{names, SigSpec, Signature};
use crate::strmap::StrMap;
use crate::text::{push_text, texts};
use crate::value::{lemma_value_list, value_list, Value, ValueSpec};
use vstd::prelude::*;

verus! {

/// A prediction: the fields of the first completion, the values of all of them,
/// the usage of models, and a score, which is finite and held as JSON prints it.
#[derive(Debug)]
pub struct Prediction {
    pub example: Example,
    pub completions: StrMap<Vec<Value>>,
    pub lm_usage: StrMap<u64>,
    pub score: Option<JsonFloat>,
}

/// What a prediction says.
pub struct PredictionSpec {
    pub example: ExampleSpec,
    pub completions: Map<Seq<char>, Seq<ValueSpec>>,
    pub lm_usage: Map<Seq<char>, u64>,
    pub score: Option<Seq<char>>,
}

impl PredictionSpec {
    /// A prediction that is an example and no more.
    pub open spec fn of_example(e: ExampleSpec) -> PredictionSpec {
        PredictionSpec {
            example: e,
            completions: Map::empty(),
            lm_usage: Map::empty(),
            score: None,
        }
    }
}

/// What the values of completions say.
pub open spec fn completion_map(m: StrMap<Vec<Value>>) -> Map<Seq<char>, Seq<ValueSpec>> {
    m@.map_values(|v: Vec<Value>| value_list(v@))
}

/// The example that a map of values makes.
pub open spec fn example_of_map(m: StrMap<Value>) -> ExampleSpec {
    ExampleSpec {
        store: value_map(m),
        keys: m.keys(),
        input_keys: None,
        demos: Seq::empty(),
    }
}

/// The values of a field, one for each completion that has it.
pub open spec fn field_values(list: Seq<StrMap<Value>>, key: Seq<char>) -> Seq<ValueSpec>
    decreases list.len(),
{
    if list.len() == 0 {
        Seq::empty()
    } else if list.last()@.contains_key(key) {
        field_values(list.drop_last(), key).push(list.last()@[key]@)
    } else {
        field_values(list.drop_last(), key)
    }
}

/// The fields whose values are collected: the outputs of the signature, or else
/// the fields of the first completion.
pub open spec fn collected_keys(list: Seq<StrMap<Value>>, sig: Option<SigSpec>) -> Seq<Seq<char>> {
    match sig {
        Some(s) => names(s.outputs()),
        None => list[0].keys(),
    }
}

/// The prediction that completions make.
pub open spec fn prediction_of(list: Seq<StrMap<Value>>, sig: Option<SigSpec>) -> PredictionSpec {
    if list.len() == 0 {
        PredictionSpec::of_example(ExampleSpec::empty())
    } else {
        PredictionSpec {
            example: example_of_map(list[0]),
            completions: Map::new(
                |k: Seq<char>| collected_keys(list, sig).contains(k),
                |k: Seq<char>| field_values(list, k),
            ),
            lm_usage: Map::empty(),
            score: None,
        }
    }
}

/// The text that a field is, or the empty text.
pub open spec fn field_text(e: ExampleSpec, key: Seq<char>) -> Seq<char> {
    match e.text(key) {
        Some(t) => t,
        None => Seq::empty(),
    }
}

/// What an optional signature says.
pub open spec fn opt_sig(s: Option<&Signature>) -> Option<SigSpec> {
    match s {
        Some(x) => Some(x@),
        None => None,
    }
}

impl View for Prediction {
    type V = PredictionSpec;

    open spec fn view(&self) -> PredictionSpec {
        PredictionSpec {
            example: self.example@,
            completions: completion_map(self.completions),
            lm_usage: self.lm_usage@,
            score: opt_float(self.score),
        }
    }
}

/// The values of a field, one for each completion that has it.
fn collect_values(list: &Vec<StrMap<Value>>, key: &str) -> (r: Vec<Value>)
    ensures
        value_list(r@) == field_values(list@, key@),
{
    let ghost all = list@;
    let mut r: Vec<Value> = Vec::new();
    let mut i: usize = 0;
    proof {
        assert(all.take(0) =~= Seq::<StrMap<Value>>::empty());
    }
    while i < list.len()
        invariant
            i <= list.len(),
            all == list@,
            value_list(r@) == field_values(all.take(i as int), key@),
        decreases list.len() - i,
    {
        proof {
            assert(all.take(i + 1).drop_last() =~= all.take(i as int));
            assert(all.take(i + 1).last() == list@[i as int]);
        }
        if let Some(v) = list[i].get(key) {
            let ghost before = r@;
            r.push(v.copy());
            proof {
                assert(r@.drop_last() =~= before);
            }
        }
        i = i + 1;
    }
    proof {
        assert(all.take(i as int) =~= all);
    }
    r
}

/// The keys of a map, in order.
pub fn keys_of<V>(m: &StrMap<V>) -> (r: Vec<String>)
    ensures
        texts(r@) == m.keys(),
{
    let ghost keys = m.keys();
    let n: usize = m.len();
    let mut r: Vec<String> = Vec::new();
    let mut i: usize = 0;
    proof {
        use_type_invariant(m);
        m.lemma_shape();
        assert(texts(r@) =~= keys.take(0));
    }
    while i < n
        invariant
            n == keys.len(),
            i <= n,
            keys == m.keys(),
            texts(r@) == keys.take(i as int),
        decreases n - i,
    {
        push_text(&mut r, m.key_at(i).clone());
        proof {
            assert(keys.take(i + 1) =~= keys.take(i as int).push(keys[i as int]));
        }
        i = i + 1;
    }
    proof {
        assert(keys.take(i as int) =~= keys);
    }
    r
}

/// A copy of a list of values.
pub fn copy_value_list(v: &Vec<Value>) -> (r: Vec<Value>)
    ensures
        value_list(r@) == value_list(v@),
{
    let mut r: Vec<Value> = Vec::new();
    let mut i: usize = 0;
    while i < v.len()
        invariant
            i <= v.len(),
            r@.len() == i,
            forall|k: int| 0 <= k < i ==> (#[trigger] r@[k])@ == v@[k]@,
        decreases v.len() - i,
    {
        r.push(v[i].copy());
        i = i + 1;
    }
    proof {
        lemma_value_list(r@);
        lemma_value_list(v@);
        assert(value_list(r@) =~= value_list(v@));
    }
    r
}

impl Prediction {
    /// A prediction with given fields.
    pub fn new(data: StrMap<Value>) -> (r: Self)
        ensures
            r@ == PredictionSpec::of_example(example_of_map(data)),
    {
        Prediction::from_example(Example::from_map(data))
    }

    /// A prediction that is an example and no more.
    pub fn from_example(example: Example) -> (r: Self)
        ensures
            r@ == PredictionSpec::of_example(example@),
    {
        let r = Prediction {
            example,
            completions: StrMap::new(),
            lm_usage: StrMap::new(),
            score: None,
        };
        proof {
            assert(completion_map(r.completions) =~= Map::<Seq<char>, Seq<ValueSpec>>::empty());
            assert(r.lm_usage@ =~= Map::<Seq<char>, u64>::empty());
        }
        r
    }

    /// The prediction that completions make: the first one gives its fields, and
    /// the values of all are kept.
    pub fn from_completions(
        completions_list: Vec<StrMap<Value>>,
        signature: Option<&Signature>,
    ) -> (r: Self)
        ensures
            r@ == prediction_of(completions_list@, opt_sig(signature)),
    {
        if completions_list.len() == 0 {
            return Prediction::from_example(Example::new());
        }
        let keys = match signature {
            Some(s) => s.output_names(),
            None => keys_of(&completions_list[0]),
        };
        let ghost all = texts(keys@);
        let mut completions: StrMap<Vec<Value>> = StrMap::new();
        let mut i: usize = 0;
        while i < keys.len()
            invariant
                i <= keys.len(),
                all == texts(keys@),
                forall|k: Seq<char>| #[trigger]
                    completions@.contains_key(k) <==> all.take(i as int).contains(k),
                forall|k: Seq<char>| #[trigger]
                    completions@.contains_key(k) ==> value_list(completions@[k]@) == field_values(
                        completions_list@,
                        k,
                    ),
            decreases keys.len() - i,
        {
            let values = collect_values(&completions_list, keys[i].as_str());
            completions.insert(keys[i].clone(), values);
            proof {
                let a1 = all.take(i as int);
                let a2 = all.take(i + 1);
                assert(a2 =~= a1.push(all[i as int]));
                assert forall|y: Seq<char>| a2.contains(y) <==> (a1.contains(y) || y
                    == all[i as int]) by {
                    if a1.contains(y) {
                        let j = choose|j: int| 0 <= j < a1.len() && a1[j] == y;
                        assert(a2[j] == y);
                    }
                    assert(a2[i as int] == all[i as int]);
                }
            }
            i = i + 1;
        }
        let primary = copy_values(&completions_list[0]);
        let r = Prediction {
            example: Example::from_map(primary),
            completions,
            lm_usage: StrMap::new(),
            score: None,
        };
        proof {
            assert(all.take(i as int) =~= all);
            let want = prediction_of(completions_list@, opt_sig(signature));
            assert(completion_map(r.completions) =~= want.completions);
            assert(r.lm_usage@ =~= Map::<Seq<char>, u64>::empty());
        }
        r
    }

    /// The value of a field.
    pub fn get(&self, key: &str) -> (r: Option<&Value>)
        ensures
            match r {
                Some(v) => self@.example.store.contains_key(key@) && v@
                    == self@.example.store[key@],
                None => !self@.example.store.contains_key(key@),
            },
    {
        self.example.get(key)
    }

    /// The text that a field is.
    pub fn get_str(&self, key: &str) -> (r: Option<&str>)
        ensures
            match r {
                Some(t) => self@.example.text(key@) == Some(t@),
                None => self@.example.text(key@) is None,
            },
    {
        self.example.get_str(key)
    }

    /// The text that a field is, or the empty text.
    pub fn text(&self, key: &str) -> (r: String)
        ensures
            r@ == field_text(self@.example, key@),
    {
        match self.example.get_str(key) {
            Some(t) => t.to_owned(),
            None => {
                let r = String::new();
                proof {
                    assert(r@ =~= Seq::<char>::empty());
                }
                r
            },
        }
    }

    /// Whether a field is there.
    pub fn has(&self, key: &str) -> (r: bool)
        ensures
            r == self@.example.store.contains_key(key@),
    {
        self.example.has(key)
    }

    /// The score.
    pub fn score(&self) -> (r: &Option<JsonFloat>)
        ensures
            opt_float(*r) == self@.score,
    {
        &self.score
    }

    /// Sets the score.
    pub fn set_score(&mut self, score: JsonFloat)
        ensures
            final(self)@ == (PredictionSpec { score: Some(score@), ..old(self)@ }),
    {
        self.score = Some(score);
    }

    /// The values of all completions.
    pub fn completions(&self) -> (r: &StrMap<Vec<Value>>)
        ensures
            completion_map(*r) == self@.completions,
    {
        &self.completions
    }

    /// The usage of models.
    pub fn lm_usage(&self) -> (r: &StrMap<u64>)
        ensures
            r@ == self@.lm_usage,
    {
        &self.lm_usage
    }

    /// Sets the usage of models.
    pub fn set_lm_usage(&mut self, usage: StrMap<u64>)
        ensures
            final(self)@ == (PredictionSpec { lm_usage: usage@, ..old(self)@ }),
    {
        self.lm_usage = usage;
    }
}

fn copy_completions(m: &StrMap<Vec<Value>>) -> (r: StrMap<Vec<Value>>)
    ensures
        completion_map(r) == completion_map(*m),
        r.keys() == m.keys(),
{
    let ghost keys = m.keys();
    let n: usize = m.len();
    let mut out: Vec<(String, Vec<Value>)> = Vec::new();
    let mut i: usize = 0;
    proof {
        use_type_invariant(m);
        m.lemma_shape();
    }
    while i < n
        invariant
            n == keys.len(),
            i <= n,
            keys == m.keys(),
            n == m.list().len(),
            out@.len() == i,
            forall|k: int|
                0 <= k < i ==> (#[trigger] out@[k]).0@ == keys[k] && value_list(out@[k].1@)
                    == value_list(m.list()[k].1@),
        decreases n - i,
    {
        let v = copy_value_list(m.value_at(i));
        out.push((m.key_at(i).clone(), v));
        i = i + 1;
    }
    proof {
        assert(crate::strmap::entry_keys(out@) =~= keys);
    }
    let r = StrMap::from_entries(out);
    proof {
        use_type_invariant(&r);
        use_type_invariant(m);
        r.lemma_shape();
        m.lemma_shape();
        assert forall|k: Seq<char>| #[trigger] m@.contains_key(k) implies value_list(r@[k]@)
            == value_list(m@[k]@) by {
            let j = choose|j: int| 0 <= j < keys.len() && keys[j] == k;
            assert(r.list()[j] == out@[j]);
            assert(m@[keys[j]] == m.list()[j].1);
        }
        assert(completion_map(r) =~= completion_map(*m));
    }
    r
}

fn copy_usage(m: &StrMap<u64>) -> (r: StrMap<u64>)
    ensures
        r@ == m@,
        r.keys() == m.keys(),
{
    let ghost keys = m.keys();
    let n: usize = m.len();
    let mut out: Vec<(String, u64)> = Vec::new();
    let mut i: usize = 0;
    proof {
        use_type_invariant(m);
        m.lemma_shape();
    }
    while i < n
        invariant
            n == keys.len(),
            i <= n,
            keys == m.keys(),
            n == m.list().len(),
            out@.len() == i,
            forall|k: int|
                0 <= k < i ==> (#[trigger] out@[k]).0@ == keys[k] && out@[k].1 == m.list()[k].1,
        decreases n - i,
    {
        out.push((m.key_at(i).clone(), *m.value_at(i)));
        i = i + 1;
    }
    proof {
        assert(crate::strmap::entry_keys(out@) =~= keys);
    }
    let r = StrMap::from_entries(out);
    proof {
        use_type_invariant(&r);
        use_type_invariant(m);
        r.lemma_shape();
        m.lemma_shape();
        assert forall|k: Seq<char>| #[trigger] m@.contains_key(k) implies r@[k] == m@[k] by {
            let j = choose|j: int| 0 <= j < keys.len() && keys[j] == k;
            assert(r.list()[j] == out@[j]);
            assert(m@[keys[j]] == m.list()[j].1);
        }
        assert(r@ =~= m@);
    }
    r
}

impl Clone for Prediction {
    fn clone(&self) -> (r: Self)
        ensures
            r@ == self@,
    {
        Prediction {
            example: self.example.clone(),
            completions: copy_completions(&self.completions),
            lm_usage: copy_usage(&self.lm_usage),
            score: copy_float(&self.score),
        }
    }
}

/// Those of the named fields that a prediction has.
pub fn pick_values(found: &Prediction, names: &Vec<String>) -> (r: StrMap<Value>)
    ensures
        value_map(r) == found@.example.store.restrict(texts(names@).to_set()),
{
    let ghost all = texts(names@);
    let ghost store = found@.example.store;
    let mut fields: StrMap<Value> = StrMap::new();
    let mut i: usize = 0;
    proof {
        assert(value_map(fields) =~= store.restrict(all.take(0).to_set()));
    }
    while i < names.len()
        invariant
            i <= names.len(),
            all == texts(names@),
            store == found@.example.store,
            value_map(fields) == store.restrict(all.take(i as int).to_set()),
        decreases names.len() - i,
    {
        let ghost name = names@[i as int]@;
        let ghost before = value_map(fields);
        let ghost a = all.take(i as int);
        proof {
            assert(all.take(i + 1) =~= a.push(name));
            a.lemma_push_to_set_commute(name);
        }
        match found.get(names[i].as_str()) {
            Some(v) => {
                fields.insert(names[i].clone(), v.copy());
                proof {
                    assert(value_map(fields) =~= before.insert(name, store[name]));
                    assert(value_map(fields) =~= store.restrict(a.to_set().insert(name)));
                }
            },
            None => {
                proof {
                    assert(before =~= store.restrict(a.to_set().insert(name)));
                }
            },
        }
        i = i + 1;
    }
    proof {
        assert(all.take(i as int) =~= all);
    }
    fields
}

/// Sets a field of a map of values.
pub fn set_field(m: &mut StrMap<Value>, name: &str, v: Value)
    ensures
        value_map(*final(m)) == value_map(*old(m)).insert(name@, v@),
{
    let ghost before = value_map(*m);
    let ghost x = v@;
    m.insert(name.to_owned(), v);
    proof {
        assert(value_map(*m) =~= before.insert(name@, x));
    }
}

/// A prediction has these fields and nothing else.
pub open spec fn has_only(p: PredictionSpec, store: Map<Seq<char>, ValueSpec>) -> bool {
    &&& p == PredictionSpec::of_example(p.example)
    &&& p.example.store == store
    &&& p.example.input_keys is None
    &&& p.example.demos.len() == 0
}

} // verus!
