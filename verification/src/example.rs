//! Examples: named values for training data, demonstrations and predictions.

use crate::json::{
    empty_object, json_list, json_object, lemma_json_list, lemma_json_object, lemma_object_insert,
    new_object, push_json, put, record2, take_record2, Json, JsonSpec,
};
use crate::strmap::StrMap;
use crate::text::{member, push_text, texts};
use crate::text_set::{text_set, TextSet};
use crate::value::{
    held_value, json_of, law_value_is_read_back, plain_value, reads_as, same_value, ToValue, Value,
    ValueSpec,
};
use vstd::prelude::*;

verus! {

/// What a map of values says.
pub open spec fn value_map(m: StrMap<Value>) -> Map<Seq<char>, ValueSpec> {
    m@.map_values(|v: Value| v@)
}

/// What an example says: its fields, the order in which they came, the fields
/// that are inputs, and its demonstrations.
pub struct ExampleSpec {
    pub store: Map<Seq<char>, ValueSpec>,
    pub keys: Seq<Seq<char>>,
    pub input_keys: Option<Set<Seq<char>>>,
    pub demos: Seq<ExampleSpec>,
}

/// The keys of `keys` that are in `set`, or those that are not.
pub open spec fn pick_keys(keys: Seq<Seq<char>>, set: Set<Seq<char>>, inside: bool) -> Seq<
    Seq<char>,
>
    decreases keys.len(),
{
    if keys.len() == 0 {
        Seq::empty()
    } else {
        let front = pick_keys(keys.drop_last(), set, inside);
        if set.contains(keys.last()) == inside {
            front.push(keys.last())
        } else {
            front
        }
    }
}

/// The fields whose keys are in `set`, or those whose keys are not.
pub open spec fn pick_fields(
    store: Map<Seq<char>, ValueSpec>,
    set: Set<Seq<char>>,
    inside: bool,
) -> Map<Seq<char>, ValueSpec> {
    Map::new(|k: Seq<char>| store.contains_key(k) && set.contains(k) == inside, |k: Seq<char>| store[k])
}

impl ExampleSpec {
    /// The example without any field.
    pub open spec fn empty() -> ExampleSpec {
        ExampleSpec {
            store: Map::empty(),
            keys: Seq::empty(),
            input_keys: None,
            demos: Seq::empty(),
        }
    }

    /// The example with a field set.
    pub open spec fn with(self, key: Seq<char>, value: ValueSpec) -> ExampleSpec {
        ExampleSpec {
            store: self.store.insert(key, value),
            keys: if self.store.contains_key(key) {
                self.keys
            } else {
                self.keys.push(key)
            },
            input_keys: self.input_keys,
            demos: self.demos,
        }
    }

    /// The text of a field, where it is one.
    pub open spec fn text(self, key: Seq<char>) -> Option<Seq<char>> {
        if self.store.contains_key(key) {
            match self.store[key] {
                ValueSpec::Text(s) => Some(s),
                _ => None,
            }
        } else {
            None
        }
    }

    /// The part that is input: all of it where no input keys are set.
    pub open spec fn inputs(self) -> ExampleSpec {
        match self.input_keys {
            Some(set) => ExampleSpec {
                store: pick_fields(self.store, set, true),
                keys: pick_keys(self.keys, set, true),
                input_keys: self.input_keys,
                demos: Seq::empty(),
            },
            None => self,
        }
    }

    /// The part that is not input: nothing where no input keys are set.
    pub open spec fn labels(self) -> ExampleSpec {
        match self.input_keys {
            Some(set) => ExampleSpec {
                store: pick_fields(self.store, set, false),
                keys: pick_keys(self.keys, set, false),
                input_keys: None,
                demos: Seq::empty(),
            },
            None => ExampleSpec::empty(),
        }
    }
}

/// Named values, some of which may be marked as inputs.
#[derive(Debug)]
pub struct Example {
    store: StrMap<Value>,
    input_keys: Option<TextSet>,
    demos: Vec<Example>,
}

closed spec fn example_view(e: Example) -> ExampleSpec
    decreases e,
{
    ExampleSpec {
        store: value_map(e.store),
        keys: e.store.keys(),
        input_keys: match e.input_keys {
            Some(v) => Some(v@),
            None => None,
        },
        demos: example_list(e.demos@),
    }
}

/// What the examples of a list say.
pub closed spec fn example_list(v: Seq<Example>) -> Seq<ExampleSpec>
    decreases v,
{
    if v.len() == 0 {
        Seq::empty()
    } else {
        example_list(v.drop_last()).push(example_view(v.last()))
    }
}

impl View for Example {
    type V = ExampleSpec;

    closed spec fn view(&self) -> ExampleSpec {
        example_view(*self)
    }
}

/// A list of examples says what its items say.
pub proof fn lemma_example_list(v: Seq<Example>)
    ensures
        example_list(v).len() == v.len(),
        forall|i: int| 0 <= i < v.len() ==> #[trigger] example_list(v)[i] == v[i]@,
    decreases v.len(),
{
    if v.len() > 0 {
        lemma_example_list(v.drop_last());
    }
}

/// A copy of a map of values.
pub fn copy_values(m: &StrMap<Value>) -> (r: StrMap<Value>)
    ensures
        value_map(r) == value_map(*m),
        r.keys() == m.keys(),
{
    let mut out: Vec<(String, Value)> = Vec::new();
    let mut i: usize = 0;
    proof {
        use_type_invariant(&*m);
        m.lemma_entries();
        m.lemma_shape();
    }
    while i < m.entries.len()
        invariant
            i <= m.entries.len(),
            out@.len() == i,
            forall|k: int|
                0 <= k < i ==> (#[trigger] out@[k]).0@ == m.entries@[k].0@ && out@[k].1@
                    == m.entries@[k].1@,
        decreases m.entries.len() - i,
    {
        let value = m.entries[i].1.copy();
        out.push((m.entries[i].0.clone(), value));
        i = i + 1;
    }
    proof {
        assert(crate::strmap::entry_keys(out@) =~= crate::strmap::entry_keys(m.entries@)) by {
            assert forall|k: int| 0 <= k < out@.len() implies crate::strmap::entry_keys(out@)[k]
                == crate::strmap::entry_keys(m.entries@)[k] by {
                assert(out@[k].0@ == m.entries@[k].0@);
            }
        }
    }
    let r = StrMap::from_entries(out);
    proof {
        use_type_invariant(&r);
        r.lemma_shape();
        assert(r@.dom() =~= m@.dom());
        assert forall|k: Seq<char>| #[trigger] m@.contains_key(k) implies r@[k]@ == m@[k]@ by {
            let i = choose|i: int| 0 <= i < m.keys().len() && m.keys()[i] == k;
            assert(r.list()[i] == out@[i]);
            assert(m.list()[i] == m.entries@[i]);
        }
        assert(value_map(r) =~= value_map(*m));
    }
    r
}

impl Example {
    /// An example without any field.
    pub fn new() -> (r: Self)
        ensures
            r@ == ExampleSpec::empty(),
    {
        let r = Example { store: StrMap::new(), input_keys: None, demos: Vec::new() };
        proof {
            assert(value_map(r.store) =~= Map::<Seq<char>, ValueSpec>::empty());
        }
        r
    }

    /// The example with the given fields.
    pub fn from_map(data: StrMap<Value>) -> (r: Self)
        ensures
            r@ == (ExampleSpec {
                store: value_map(data),
                keys: data.keys(),
                input_keys: None,
                demos: Seq::empty(),
            }),
    {
        Example { store: data, input_keys: None, demos: Vec::new() }
    }

    /// The value of a field.
    pub fn get(&self, key: &str) -> (r: Option<&Value>)
        ensures
            r is Some <==> self@.store.contains_key(key@),
            r matches Some(v) ==> v@ == self@.store[key@],
    {
        self.store.get(key)
    }

    /// The text of a field, where it is one.
    pub fn get_str(&self, key: &str) -> (r: Option<&str>)
        ensures
            r is Some <==> self@.text(key@) is Some,
            r matches Some(s) ==> self@.text(key@) == Some(s@),
    {
        match self.store.get(key) {
            Some(v) => v.as_str(),
            None => None,
        }
    }

    /// Sets a field.
    pub fn set<T: ToValue>(&mut self, key: &str, value: T) -> (r: &mut Self)
        ensures
            r@ == old(self)@.with(key@, value.says()),
            *final(self) == *final(r),
    {
        let ghost before = self.store;
        self.store.insert(key.to_owned(), value.to_value());
        proof {
            assert(value_map(self.store) =~= value_map(before).insert(key@, value.says()));
        }
        self
    }

    /// Whether a field is there.
    pub fn has(&self, key: &str) -> (r: bool)
        ensures
            r == self@.store.contains_key(key@),
    {
        self.store.contains_key(key)
    }

    /// Takes a field out.
    pub fn remove(&mut self, key: &str) -> (r: Option<Value>)
        ensures
            r is Some <==> old(self)@.store.contains_key(key@),
            r matches Some(v) ==> v@ == old(self)@.store[key@],
            final(self)@ == (ExampleSpec {
                store: old(self)@.store.remove(key@),
                keys: if old(self)@.store.contains_key(key@) {
                    old(self)@.keys.remove(old(self)@.keys.index_of(key@))
                } else {
                    old(self)@.keys
                },
                input_keys: old(self)@.input_keys,
                demos: old(self)@.demos,
            }),
    {
        let ghost before = self.store;
        let r = self.store.remove(key);
        proof {
            assert(value_map(self.store) =~= value_map(before).remove(key@));
        }
        r
    }

    /// The names of the fields, in the order in which they came.
    pub fn keys(&self) -> (r: Vec<String>)
        ensures
            texts(r@) == self@.keys,
    {
        let mut r: Vec<String> = Vec::new();
        let mut i: usize = 0;
        while i < self.store.len()
            invariant
                i <= self.store.keys().len(),
                texts(r@) == self.store.keys().take(i as int),
            decreases self.store.keys().len() - i,
        {
            push_text(&mut r, self.store.key_at(i).clone());
            proof {
                assert(self.store.keys().take(i + 1) =~= self.store.keys().take(i as int).push(
                    self.store.keys()[i as int],
                ));
            }
            i = i + 1;
        }
        proof {
            assert(self.store.keys().take(i as int) =~= self.store.keys());
        }
        r
    }

    /// How many fields there are.
    pub fn len(&self) -> (n: usize)
        ensures
            n == self@.keys.len(),
    {
        self.store.len()
    }

    /// Whether there is no field.
    pub fn is_empty(&self) -> (r: bool)
        ensures
            r == (self@.keys.len() == 0),
    {
        self.store.is_empty()
    }

    /// The fields.
    pub fn to_map(&self) -> (r: &StrMap<Value>)
        ensures
            value_map(*r) == self@.store,
            r.keys() == self@.keys,
    {
        &self.store
    }

    /// The fields.
    pub fn into_map(self) -> (r: StrMap<Value>)
        ensures
            value_map(r) == self@.store,
            r.keys() == self@.keys,
    {
        self.store
    }

    /// Marks the fields that are inputs.
    pub fn with_input_keys(self, keys: &Vec<String>) -> (r: Self)
        ensures
            r@ == (ExampleSpec { input_keys: Some(texts(keys@).to_set()), ..self@ }),
    {
        let input_keys = Some(TextSet::from_texts(keys));
        Example { store: self.store, input_keys, demos: self.demos }
    }

    /// Marks the fields that are inputs.
    pub fn with_inputs(self, keys: &[&str]) -> (r: Self)
        ensures
            r@ == (ExampleSpec {
                input_keys: Some(keys@.map_values(|k: &str| k@).to_set()),
                ..self@
            }),
    {
        let mut names: Vec<String> = Vec::new();
        let mut i: usize = 0;
        while i < keys.len()
            invariant
                i <= keys.len(),
                texts(names@) == keys@.map_values(|k: &str| k@).take(i as int),
            decreases keys.len() - i,
        {
            push_text(&mut names, keys[i].to_owned());
            proof {
                assert(keys@.map_values(|k: &str| k@).take(i + 1) =~= keys@.map_values(
                    |k: &str| k@,
                ).take(i as int).push(keys@[i as int]@));
            }
            i = i + 1;
        }
        proof {
            assert(keys@.map_values(|k: &str| k@).take(i as int) =~= keys@.map_values(
                |k: &str| k@,
            ));
        }
        self.with_input_keys(&names)
    }

    /// The example with a field set.
    pub fn field<T: ToValue>(self, key: &str, value: T) -> (r: Self)
        ensures
            r@ == self@.with(key@, value.says()),
    {
        let mut r = self;
        r.set(key, value);
        r
    }
}

impl Default for Example {
    fn default() -> (r: Self)
        ensures
            r@ == ExampleSpec::empty(),
    {
        Example::new()
    }
}

impl Clone for Example {
    fn clone(&self) -> (r: Self)
        ensures
            r@ == self@,
        decreases self,
    {
        let input_keys = match &self.input_keys {
            Some(v) => Some(v.copy()),
            None => None,
        };
        let mut demos: Vec<Example> = Vec::new();
        let mut i: usize = 0;
        while i < self.demos.len()
            invariant
                i <= self.demos.len(),
                demos@.len() == i,
                forall|k: int| 0 <= k < i ==> (#[trigger] demos@[k])@ == self.demos@[k]@,
            decreases self.demos.len() - i,
        {
            proof {
                assert(decreases_to!(self => self.demos));
                assert(decreases_to!(self.demos@ => self.demos@[i as int]));
            }
            demos.push(self.demos[i].clone());
            i = i + 1;
        }
        proof {
            lemma_example_list(demos@);
            lemma_example_list(self.demos@);
            assert(example_list(demos@) =~= example_list(self.demos@));
        }
        Example { store: copy_values(&self.store), input_keys, demos }
    }
}

/// A copy of a list of examples.
pub fn copy_examples(v: &Vec<Example>) -> (r: Vec<Example>)
    ensures
        example_list(r@) == example_list(v@),
        r@.len() == v@.len(),
{
    let mut r: Vec<Example> = Vec::new();
    let mut i: usize = 0;
    while i < v.len()
        invariant
            i <= v.len(),
            r@.len() == i,
            forall|k: int| 0 <= k < i ==> (#[trigger] r@[k])@ == v@[k]@,
        decreases v.len() - i,
    {
        r.push(v[i].clone());
        i = i + 1;
    }
    proof {
        lemma_example_list(r@);
        lemma_example_list(v@);
        assert(example_list(r@) =~= example_list(v@));
    }
    r
}

/// The fields of a store whose names are in a list, or those whose names are not.
fn picked(store: &StrMap<Value>, names: &Vec<String>, inside: bool) -> (r: StrMap<Value>)
    ensures
        value_map(r) == pick_fields(value_map(*store), text_set(names@), inside),
        r.keys() == pick_keys(store.keys(), text_set(names@), inside),
{
    let ghost set = text_set(names@);
    let ghost keys = store.keys();
    let mut r: StrMap<Value> = StrMap::new();
    let mut i: usize = 0;
    proof {
        use_type_invariant(&*store);
        store.lemma_shape();
        assert(keys.take(0) =~= Seq::<Seq<char>>::empty());
    }
    while i < store.len()
        invariant
            keys == store.keys(),
            store.list().len() == keys.len(),
            set == text_set(names@),
            i <= keys.len(),
            keys.no_duplicates(),
            forall|j: int|
                0 <= j < keys.len() ==> store@.contains_key(#[trigger] keys[j]),
            r.keys() == pick_keys(keys.take(i as int), set, inside),
            forall|k: Seq<char>| #[trigger]
                r@.contains_key(k) <==> keys.take(i as int).contains(k) && set.contains(k)
                    == inside,
            forall|k: Seq<char>| #[trigger] r@.contains_key(k) ==> r@[k]@ == store@[k]@,
        decreases keys.len() - i,
    {
        let ghost key = keys[i as int];
        proof {
            let a = keys.take(i as int);
            let b = keys.take(i + 1);
            assert(b.drop_last() =~= a);
            assert(b.last() == key);
            assert forall|k: Seq<char>| b.contains(k) <==> a.contains(k) || k == key by {
                if a.contains(k) {
                    let j = choose|j: int| 0 <= j < a.len() && a[j] == k;
                    assert(b[j] == k);
                }
                if k == key {
                    assert(b[i as int] == k);
                }
                if b.contains(k) && k != key {
                    let j = choose|j: int| 0 <= j < b.len() && b[j] == k;
                    assert(a[j] == k);
                }
            }
            if a.contains(key) {
                let j = choose|j: int| 0 <= j < a.len() && a[j] == key;
                assert(keys[j] == keys[i as int]);
            }
            assert(set.contains(key) == texts(names@).contains(key));
        }
        let is_in = member(names, store.key_at(i).as_str());
        if is_in == inside {
            r.insert(store.key_at(i).clone(), store.value_at(i).copy());
        }
        i = i + 1;
    }
    proof {
        assert(keys.take(i as int) =~= keys);
        assert(value_map(r) =~= pick_fields(value_map(*store), set, inside)) by {
            assert forall|k: Seq<char>|
                value_map(r).contains_key(k) <==> pick_fields(
                    value_map(*store),
                    set,
                    inside,
                ).contains_key(k) by {
                assert(store@.contains_key(k) <==> keys.contains(k));
                assert(value_map(r).contains_key(k) <==> r@.contains_key(k));
            }
            assert forall|k: Seq<char>| value_map(r).contains_key(k) implies value_map(r)[k]
                == pick_fields(value_map(*store), set, inside)[k] by {
                assert(r@.contains_key(k));
            }
        }
    }
    r
}

impl Example {
    /// The part that is input: all of it where no input keys are set.
    pub fn inputs(&self) -> (r: Example)
        ensures
            r@ == self@.inputs(),
    {
        match &self.input_keys {
            Some(names) => Example {
                store: picked(&self.store, names.items(), true),
                input_keys: Some(names.copy()),
                demos: Vec::new(),
            },
            None => self.clone(),
        }
    }

    /// The part that is not input: nothing where no input keys are set.
    pub fn labels(&self) -> (r: Example)
        ensures
            r@ == self@.labels(),
    {
        match &self.input_keys {
            Some(names) => Example::from_map(picked(&self.store, names.items(), false)),
            None => Example::new(),
        }
    }

    /// The names of the inputs, each once, where they are set.
    pub fn input_keys(&self) -> (r: Option<&Vec<String>>)
        ensures
            r is Some <==> self@.input_keys is Some,
            r matches Some(v) ==> self@.input_keys == Some(text_set(v@)) && texts(
                v@,
            ).no_duplicates(),
    {
        match &self.input_keys {
            Some(v) => Some(v.items()),
            None => None,
        }
    }

    /// The demonstrations.
    pub fn demos(&self) -> (r: &Vec<Example>)
        ensures
            example_list(r@) == self@.demos,
    {
        &self.demos
    }

    /// The demonstrations, to change them.
    pub fn demos_mut(&mut self) -> (r: &mut Vec<Example>)
        ensures
            example_list(r@) == old(self)@.demos,
            final(self)@ == (ExampleSpec { demos: example_list(final(r)@), ..old(self)@ }),
    {
        &mut self.demos
    }

    /// Replaces the demonstrations.
    pub fn set_demos(&mut self, demos: Vec<Example>)
        ensures
            final(self)@ == (ExampleSpec { demos: example_list(demos@), ..old(self)@ }),
    {
        self.demos = demos;
    }

    /// The value of a field that is there.
    pub fn at(&self, key: &str) -> (r: &Value)
        requires
            self@.store.contains_key(key@),
        ensures
            r@ == self@.store[key@],
    {
        self.store.get(key).unwrap()
    }
}

/// The inputs and the labels of an example with input keys are its fields, each
/// in one of the two.
pub proof fn law_inputs_and_labels_part_the_fields(e: ExampleSpec)
    requires
        e.input_keys is Some,
    ensures
        e.inputs().store.dom().disjoint(e.labels().store.dom()),
        e.inputs().store.union_prefer_right(e.labels().store) =~= e.store,
        forall|k: Seq<char>| #[trigger]
            e.inputs().store.contains_key(k) ==> e.input_keys->0.contains(k),
{
}

/// Taking the inputs of the inputs changes nothing, demonstrations aside.
pub proof fn law_inputs_of_inputs(e: ExampleSpec)
    requires
        e.input_keys is Some,
    ensures
        e.inputs().inputs().store == e.inputs().store,
{
    assert(e.inputs().inputs().store =~= e.inputs().store);
}

/// A field that was set is read back, and no other field changes.
pub proof fn law_set_then_get(e: ExampleSpec, key: Seq<char>, value: ValueSpec, other: Seq<char>)
    ensures
        e.with(key, value).store.contains_key(key),
        e.with(key, value).store[key] == value,
        other != key ==> e.with(key, value).store.contains_key(other) == e.store.contains_key(other),
        other != key && e.store.contains_key(other) ==> e.with(key, value).store[other]
            == e.store[other],
{
}

// ---------------------------------------------------------------------------
// Examples in JSON
// ---------------------------------------------------------------------------

/// The texts of a list of JSON texts.
pub open spec fn texts_in(items: Seq<JsonSpec>) -> Option<Seq<Seq<char>>>
    decreases items.len(),
{
    if items.len() == 0 {
        Some(Seq::empty())
    } else {
        match (texts_in(items.drop_last()), items.last()) {
            (Some(front), JsonSpec::Text(t)) => Some(front.push(t)),
            _ => None,
        }
    }
}

/// `j` is what an example says in JSON: its fields, and its input keys in some
/// order. Demonstrations are left out.
pub open spec fn writes_example(e: ExampleSpec, j: JsonSpec) -> bool {
    exists|keys: JsonSpec|
        #![trigger input_keys_json(e, keys)]
        input_keys_json(e, keys) && j == example_object(e, keys)
}

/// The object of an example with given input keys.
pub open spec fn example_object(e: ExampleSpec, keys: JsonSpec) -> JsonSpec {
    JsonSpec::Object(
        empty_object().insert(
            "store"@,
            JsonSpec::Object(e.store.map_values(|v: ValueSpec| json_of(v))),
        ).insert("input_keys"@, keys),
    )
}

/// `keys` holds the input keys of an example, each once.
pub open spec fn input_keys_json(e: ExampleSpec, keys: JsonSpec) -> bool {
    match e.input_keys {
        Some(set) => keys matches JsonSpec::Array(items) && texts_in(items) matches Some(t)
            && t.to_set() == set && t.no_duplicates(),
        None => keys is Null,
    }
}

/// `j` can be read as an example.
pub open spec fn example_readable(j: JsonSpec) -> bool {
    match record2(j, "store"@, "input_keys"@, Some(JsonSpec::Null)) {
        Some((JsonSpec::Object(_), JsonSpec::Null)) => true,
        Some((JsonSpec::Object(_), JsonSpec::Array(items))) => texts_in(items) is Some,
        _ => false,
    }
}

/// `e` is what `j` reads as.
pub open spec fn reads_example(e: ExampleSpec, j: JsonSpec) -> bool {
    match record2(j, "store"@, "input_keys"@, Some(JsonSpec::Null)) {
        Some((JsonSpec::Object(m), keys)) => {
            &&& e.store.dom() == m.dom()
            &&& forall|k: Seq<char>| #[trigger]
                m.contains_key(k) ==> reads_as(e.store[k], m[k])
            &&& e.input_keys == match keys {
                JsonSpec::Array(items) => match texts_in(items) {
                    Some(t) => Some(t.to_set()),
                    None => None,
                },
                _ => None,
            }
            &&& e.demos.len() == 0
        },
        _ => false,
    }
}

/// All values can be held.
pub open spec fn holds_values(m: Map<Seq<char>, ValueSpec>) -> bool {
    forall|k: Seq<char>| #[trigger] m.contains_key(k) ==> held_value(m[k])
}

/// The JSON object of a map of values.
pub fn values_to_json(m: &StrMap<Value>) -> (r: StrMap<Json>)
    ensures
        json_object(r) == value_map(*m).map_values(|v: ValueSpec| json_of(v)),
        r.keys() == m.keys(),
        holds_values(value_map(*m)),
{
    let ghost keys = m.keys();
    let ghost want = value_map(*m).map_values(|v: ValueSpec| json_of(v));
    let mut r = new_object();
    let n: usize = m.len();
    let mut i: usize = 0;
    proof {
        use_type_invariant(m);
        m.lemma_shape();
        assert(keys.take(0) =~= Seq::<Seq<char>>::empty());
    }
    while i < n
        invariant
            n == keys.len(),
            i <= n,
            keys == m.keys(),
            keys.no_duplicates(),
            want == value_map(*m).map_values(|v: ValueSpec| json_of(v)),
            forall|k: int| 0 <= k < n ==> m@.contains_key(#[trigger] keys[k]),
            r.keys() == keys.take(i as int),
            forall|k: Seq<char>| #[trigger]
                json_object(r).contains_key(k) <==> keys.take(i as int).contains(k),
            forall|k: Seq<char>| #[trigger]
                json_object(r).contains_key(k) ==> json_object(r)[k] == want[k],
            forall|k: int| 0 <= k < i ==> held_value(value_map(*m)[#[trigger] keys[k]]),
        decreases n - i,
    {
        let k = m.key_at(i);
        let v = m.value_at(i).to_json();
        let ghost before = r;
        let ghost x = v;
        proof {
            use_type_invariant(&r);
            r.lemma_shape();
            lemma_json_object(r);
            assert(m@.contains_key(keys[i as int]));
            assert(want[k@] == x@);
            if r@.contains_key(k@) {
                let j = choose|j: int| 0 <= j < i && keys.take(i as int)[j] == k@;
                assert(keys[j] == keys[i as int]);
            }
        }
        r.insert(k.clone(), v);
        proof {
            use_type_invariant(&r);
            lemma_object_insert(before, r, keys[i as int], x);
            let a1 = keys.take(i as int);
            let a2 = keys.take(i + 1);
            assert(a2 =~= a1.push(keys[i as int]));
            assert forall|y: Seq<char>| a2.contains(y) <==> (a1.contains(y) || y
                == keys[i as int]) by {
                if a1.contains(y) {
                    let j = choose|j: int| 0 <= j < a1.len() && a1[j] == y;
                    assert(a2[j] == y);
                }
                assert(a2[i as int] == keys[i as int]);
            }
        }
        i = i + 1;
    }
    proof {
        assert(keys.take(i as int) =~= keys);
        use_type_invariant(m);
        m.lemma_shape();
        assert(json_object(r) =~= want);
    }
    r
}

/// The values that a JSON object reads as.
pub fn values_from_json(m: &StrMap<Json>) -> (r: StrMap<Value>)
    ensures
        value_map(r).dom() == json_object(*m).dom(),
        forall|k: Seq<char>| #[trigger]
            json_object(*m).contains_key(k) ==> reads_as(value_map(r)[k], json_object(*m)[k]),
        r.keys() == m.keys(),
{
    let ghost keys = m.keys();
    let mut r: StrMap<Value> = StrMap::new();
    let n: usize = m.len();
    let mut i: usize = 0;
    proof {
        use_type_invariant(m);
        m.lemma_shape();
        lemma_json_object(*m);
        assert(keys.take(0) =~= Seq::<Seq<char>>::empty());
    }
    while i < n
        invariant
            n == keys.len(),
            i <= n,
            m.wf(),
            keys == m.keys(),
            keys.no_duplicates(),
            json_object(*m).dom() == m@.dom(),
            forall|k: Seq<char>|
                m@.contains_key(k) ==> #[trigger] json_object(*m)[k] == m@[k]@,
            forall|k: int| 0 <= k < n ==> m@.contains_key(#[trigger] keys[k]),
            r.keys() == keys.take(i as int),
            forall|k: Seq<char>| #[trigger]
                r@.contains_key(k) <==> keys.take(i as int).contains(k),
            forall|k: Seq<char>| #[trigger]
                r@.contains_key(k) ==> reads_as(r@[k]@, json_object(*m)[k]),
        decreases n - i,
    {
        let k = m.key_at(i);
        let v = Value::from_json(m.value_at(i));
        proof {
            assert(m@.contains_key(keys[i as int]));
            assert(json_object(*m)[keys[i as int]] == m@[keys[i as int]]@);
            if r@.contains_key(k@) {
                let j = choose|j: int| 0 <= j < i && keys.take(i as int)[j] == k@;
                assert(keys[j] == keys[i as int]);
            }
        }
        r.insert(k.clone(), v);
        proof {
            let a1 = keys.take(i as int);
            let a2 = keys.take(i + 1);
            assert(a2 =~= a1.push(keys[i as int]));
            assert forall|y: Seq<char>| a2.contains(y) <==> (a1.contains(y) || y
                == keys[i as int]) by {
                if a1.contains(y) {
                    let j = choose|j: int| 0 <= j < a1.len() && a1[j] == y;
                    assert(a2[j] == y);
                }
                assert(a2[i as int] == keys[i as int]);
            }
        }
        i = i + 1;
    }
    proof {
        assert(keys.take(i as int) =~= keys);
        m.lemma_shape();
        assert(value_map(r).dom() =~= json_object(*m).dom());
    }
    r
}

/// A list of texts in JSON.
fn key_items(keys: &Vec<String>) -> (r: Vec<Json>)
    ensures
        texts_in(json_list(r@)) == Some(texts(keys@)),
{
    let mut items: Vec<Json> = Vec::new();
    let ghost all = texts(keys@);
    let mut i: usize = 0;
    proof {
        assert(all.take(0) =~= Seq::<Seq<char>>::empty());
    }
    while i < keys.len()
        invariant
            i <= keys.len(),
            all == texts(keys@),
            texts_in(json_list(items@)) == Some(all.take(i as int)),
        decreases keys.len() - i,
    {
        let ghost listed = json_list(items@);
        push_json(&mut items, Json::text(keys[i].as_str()));
        proof {
            assert(json_list(items@).drop_last() =~= listed);
            assert(all.take(i + 1) =~= all.take(i as int).push(keys@[i as int]@));
        }
        i = i + 1;
    }
    proof {
        assert(all.take(i as int) =~= all);
    }
    items
}

/// The texts of a list of JSON texts.
pub fn text_items(items: &Vec<Json>) -> (r: Option<Vec<String>>)
    ensures
        match r {
            Some(v) => texts_in(json_list(items@)) == Some(texts(v@)),
            None => texts_in(json_list(items@)) is None,
        },
{
    let ghost all = json_list(items@);
    let mut out: Vec<String> = Vec::new();
    let mut i: usize = 0;
    proof {
        lemma_json_list(items@);
        assert(all.take(0) =~= Seq::<JsonSpec>::empty());
        assert(texts(out@) =~= Seq::<Seq<char>>::empty());
    }
    while i < items.len()
        invariant
            i <= items.len(),
            all == json_list(items@),
            all.len() == items@.len(),
            forall|k: int| 0 <= k < items@.len() ==> #[trigger] all[k] == items@[k]@,
            texts_in(all.take(i as int)) == Some(texts(out@)),
        decreases items.len() - i,
    {
        proof {
            assert(all.take(i + 1).drop_last() =~= all.take(i as int));
            assert(all.take(i + 1).last() == items@[i as int]@);
        }
        match &items[i] {
            Json::Text(t) => {
                push_text(&mut out, t.clone());
            },
            _ => {
                proof {
                    lemma_not_texts(all, i + 1);
                }
                return None;
            },
        }
        i = i + 1;
    }
    proof {
        assert(all.take(i as int) =~= all);
    }
    Some(out)
}

proof fn lemma_not_texts(items: Seq<JsonSpec>, n: int)
    requires
        0 <= n <= items.len(),
        texts_in(items.take(n)) is None,
    ensures
        texts_in(items) is None,
    decreases items.len() - n,
{
    if n < items.len() {
        assert(items.take(n + 1).drop_last() =~= items.take(n));
        lemma_not_texts(items, n + 1);
    } else {
        assert(items.take(n) =~= items);
    }
}

impl Example {
    /// The example in JSON, without its demonstrations.
    pub fn to_json(&self) -> (r: Json)
        ensures
            writes_example(self@, r@),
            holds_values(self@.store),
    {
        let mut m = new_object();
        put(&mut m, "store", Json::Object(values_to_json(&self.store)));
        let keys = match &self.input_keys {
            Some(v) => Json::Array(key_items(v.items())),
            None => Json::Null,
        };
        let ghost k = keys@;
        put(&mut m, "input_keys", keys);
        let r = Json::Object(m);
        proof {
            assert(input_keys_json(self@, k));
            assert(r@ == example_object(self@, k));
        }
        r
    }

    /// The example that a JSON value reads as.
    pub fn from_json(j: &Json) -> (r: Option<Example>)
        ensures
            r is Some <==> example_readable(j@),
            r matches Some(e) ==> reads_example(e@, j@),
    {
        match take_record2(j, "store", "input_keys") {
            Some((Json::Object(m), rest)) => {
                let input_keys = match rest {
                    None => None,
                    Some(Json::Null) => None,
                    Some(Json::Array(items)) => match text_items(items) {
                        Some(v) => Some(TextSet::from_texts(&v)),
                        None => {
                            return None;
                        },
                    },
                    _ => {
                        return None;
                    },
                };
                let store = values_from_json(m);
                let e = Example { store, input_keys, demos: Vec::new() };
                proof {
                    lemma_example_list(e.demos@);
                }
                Some(e)
            },
            _ => None,
        }
    }
}

/// An example is read back from JSON as what was written: its fields, each with its
/// value, and its input keys. (Demonstrations are not written.)
pub proof fn law_example_is_read_back(e: ExampleSpec, j: JsonSpec, read: ExampleSpec)
    requires
        writes_example(e, j),
        reads_example(read, j),
        holds_values(e.store),
    ensures
        example_readable(j),
        same_fields(read.store, e.store),
        read.input_keys == e.input_keys,
{
    reveal_strlit("store");
    reveal_strlit("input_keys");
    assert("store"@.len() == 5 && "input_keys"@.len() == 10);
    let keys = choose|keys: JsonSpec|
        #![trigger input_keys_json(e, keys)]
        input_keys_json(e, keys) && j == example_object(e, keys);
    let m = e.store.map_values(|v: ValueSpec| json_of(v));
    assert(record2(j, "store"@, "input_keys"@, Some(JsonSpec::Null)) == Some(
        (JsonSpec::Object(m), keys),
    ));
    assert(read.store.dom() =~= e.store.dom());
    assert forall|k: Seq<char>| #[trigger] e.store.contains_key(k) implies same_value(
        read.store[k],
        e.store[k],
    ) && (plain_value(e.store[k]) ==> read.store[k] == e.store[k]) by {
        assert(m.contains_key(k));
        law_value_is_read_back(read.store[k], e.store[k]);
    }
}

/// The fields are the same, and so are their values: entirely where they hold no
/// objects, and else but for the order of the entries of objects.
pub open spec fn same_fields(
    a: Map<Seq<char>, ValueSpec>,
    b: Map<Seq<char>, ValueSpec>,
) -> bool {
    &&& a.dom() == b.dom()
    &&& forall|k: Seq<char>| #[trigger]
        b.contains_key(k) ==> same_value(a[k], b[k]) && (plain_value(b[k]) ==> a[k] == b[k])
}

} // verus!
