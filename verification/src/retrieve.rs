//! Retrieval of passages for a query.

use crate::error::{is_other_error, DspyError, Result};
use crate::example::value_map;
use crate::identifier::{hex_digits, random_short_identifier};
use crate::json::{empty_object, member_of, nat_in, new_object, put, put_text, Json, JsonSpec};
use crate::prediction::{has_only, set_field, Prediction};
use crate::strmap::StrMap;
use crate::text::texts;
use crate::value::{lemma_value_list, value_list, Value, ValueSpec};
use vstd::prelude::*;

verus! {

/// The retriever that is used where no other is given. `R` is a handle to it.
#[derive(Debug)]
pub struct GlobalRetriever<R> {
    pub retriever: Option<R>,
}

impl<R> GlobalRetriever<R> {
    /// No retriever.
    pub fn new() -> (r: Self)
        ensures
            r.retriever is None,
    {
        GlobalRetriever { retriever: None }
    }
}

/// Sets the retriever.
pub fn set_global_retriever<R>(global: &mut GlobalRetriever<R>, rm: Option<R>)
    ensures
        final(global).retriever == rm,
{
    global.retriever = rm;
}

/// The retriever.
pub fn get_global_retriever<R>(global: &GlobalRetriever<R>) -> (r: &Option<R>)
    ensures
        *r == global.retriever,
{
    &global.retriever
}

/// What is said where no retriever is set.
pub open spec fn no_retriever() -> Seq<char> {
    "No retrieval module is configured. Set one via set_global_retriever()."@
}

/// A search for passages.
#[derive(Debug)]
pub struct Retrieve {
    pub name: &'static str,
    pub input_variable: &'static str,
    pub desc: &'static str,
    /// How many passages are asked for.
    pub k: usize,
    pub stage: String,
}

/// A search with given numbers.
pub open spec fn is_search(r: Retrieve, k: usize) -> bool {
    &&& r.name@ == "Search"@
    &&& r.input_variable@ == "query"@
    &&& r.desc@
        == "takes a search query and returns one or more potentially relevant passages from a corpus"@
    &&& r.k == k
}

/// A search for `k` passages in JSON.
pub open spec fn search_json(k: usize) -> JsonSpec {
    JsonSpec::Object(empty_object().insert("k"@, JsonSpec::Int(k as int)))
}

/// The number of passages that a JSON value holds, or else the one that is there.
pub open spec fn loaded_count(state: JsonSpec, there: usize) -> usize {
    match member_of(state, "k"@) {
        Some(j) => match nat_in(j) {
            Some(n) => n as usize,
            None => there,
        },
        None => there,
    }
}

impl Retrieve {
    /// A search for `k` passages, with a random name for its stage.
    pub fn new(k: usize) -> (r: Self)
        ensures
            is_search(r, k),
            exists|n: u64| r.stage@ == #[trigger] hex_digits(n as nat, 16),
    {
        Retrieve {
            name: "Search",
            input_variable: "query",
            desc: "takes a search query and returns one or more potentially relevant passages from a corpus",
            k,
            stage: random_short_identifier(),
        }
    }

    /// Resets the state, of which there is none.
    pub fn reset(&mut self)
        ensures
            *final(self) == *old(self),
    {
    }

    /// The search in JSON.
    pub fn dump_state(&self) -> (r: Json)
        ensures
            r@ == search_json(self.k),
    {
        let mut m = new_object();
        put(&mut m, "k", Json::Unsigned(self.k as u64));
        Json::Object(m)
    }

    /// Takes over what a JSON value holds.
    pub fn load_state(&mut self, state: &Json)
        ensures
            *final(self) == (Retrieve {
                k: loaded_count(state@, old(self).k),
                ..*old(self)
            }),
    {
        if let Some(j) = state.get("k") {
            if let Some(n) = j.as_u64() {
                self.k = #[verifier::truncate]
                (n as usize);
            }
        }
    }

    /// How many passages a query asks for: as it says itself, or else as the search
    /// does.
    pub fn count(&self, k: Option<usize>) -> (r: usize)
        ensures
            r == match k {
                Some(n) => n,
                None => self.k,
            },
    {
        match k {
            Some(n) => n,
            None => self.k,
        }
    }

    /// What callbacks are told of a query.
    pub fn query_inputs(&self, query: &str, count: usize) -> (r: Json)
        ensures
            r@ == JsonSpec::Object(
                empty_object().insert("query"@, JsonSpec::Text(query@)).insert(
                    "k"@,
                    JsonSpec::Int(count as int),
                ),
            ),
    {
        let mut m = new_object();
        put_text(&mut m, "query", query);
        put(&mut m, "k", Json::Unsigned(count as u64));
        Json::Object(m)
    }

    /// The retriever of a query.
    pub fn retriever<'a, R>(&self, global: &'a GlobalRetriever<R>) -> (r: Result<&'a R>)
        ensures
            match global.retriever {
                Some(x) => r matches Ok(y) && *y == x,
                None => r matches Err(e) && is_other_error(e, no_retriever()),
            },
    {
        match &global.retriever {
            Some(x) => Ok(x),
            None => Err(
                DspyError::Other(
                    "No retrieval module is configured. Set one via set_global_retriever().".to_string(),
                ),
            ),
        }
    }

    /// The prediction that passages make.
    pub fn prediction(&self, passages: Vec<String>) -> (r: Prediction)
        ensures
            has_only(
                r@,
                Map::<Seq<char>, ValueSpec>::empty().insert(
                    "passages"@,
                    ValueSpec::List(texts(passages@).map_values(|t: Seq<char>| ValueSpec::Text(t))),
                ),
            ),
    {
        let ghost all = passages@;
        let mut values: Vec<Value> = Vec::new();
        for p in it: passages
            invariant
                it.seq() == all,
                values@.len() == it.index(),
                forall|k: int|
                    0 <= k < values@.len() ==> (#[trigger] values@[k])@ == ValueSpec::Text(all[k]@),
        {
            values.push(Value::String(p));
        }
        proof {
            lemma_value_list(values@);
            assert(value_list(values@) =~= texts(all).map_values(
                |t: Seq<char>| ValueSpec::Text(t),
            ));
        }
        let mut data: StrMap<Value> = StrMap::new();
        proof {
            assert(value_map(data) =~= Map::<Seq<char>, ValueSpec>::empty());
        }
        set_field(&mut data, "passages", Value::List(values));
        Prediction::new(data)
    }
}

/// A search that was saved is restored as it was.
pub proof fn law_search_is_read_back(k: usize, there: usize)
    ensures
        loaded_count(search_json(k), there) == k,
{
}

} // verus!
