//! Embedding texts in batches, with a cache.

use crate::cache::{
    as_hit, file_value, ignored_of, key_of, law_cache_gives_back, opt_text_of, Cache, CacheSpec,
    DiskWrite,
};
use crate::error::{is_other_error, DspyError, Result};
use crate::json::{
    copy_list, copy_object, empty_object, json_list, json_object, lemma_json_list,
    lemma_json_object, nests_within, new_object, printed_json, put, put_text, Json, JsonSpec,
};
use crate::strmap::StrMap;
use crate::text::{byte_len_of, push_text, texts};
use crate::tool::{texts_json, texts_to_json};
use vstd::prelude::*;

verus! {

/// Embeds texts in batches.
#[derive(Debug)]
pub struct Embedder {
    pub model_id: String,
    pub batch_size: usize,
    pub caching: bool,
    pub default_kwargs: StrMap<Json>,
}

/// The arguments of a call: those that are given win over the defaults.
pub open spec fn merged_kwargs(
    defaults: Map<Seq<char>, JsonSpec>,
    given: Option<Map<Seq<char>, JsonSpec>>,
) -> Map<Seq<char>, JsonSpec> {
    match given {
        Some(m) => defaults.union_prefer_right(m),
        None => defaults,
    }
}

/// The object that optional arguments are.
pub open spec fn opt_object(m: Option<StrMap<Json>>) -> Option<Map<Seq<char>, JsonSpec>> {
    match m {
        Some(x) => Some(json_object(x)),
        None => None,
    }
}

/// The request that stands for a batch in the cache.
pub open spec fn embed_request(
    model: Seq<char>,
    inputs: Seq<Seq<char>>,
    kwargs: Map<Seq<char>, JsonSpec>,
) -> JsonSpec {
    JsonSpec::Object(
        empty_object().insert("_fn"@, JsonSpec::Text("embedder"@)).insert(
            "model"@,
            JsonSpec::Text(model),
        ).insert("inputs"@, texts_json(inputs)).insert("kwargs"@, JsonSpec::Object(kwargs)),
    )
}

/// A value is an embedding: a list of numbers.
pub open spec fn is_embedding(j: JsonSpec) -> bool {
    match j {
        JsonSpec::Array(items) => forall|i: int|
            0 <= i < items.len() ==> (#[trigger] items[i]) is Int || items[i] is Float,
        _ => false,
    }
}

/// The embeddings that a value is.
pub open spec fn embeddings_in(j: JsonSpec) -> Option<Seq<JsonSpec>> {
    match j {
        JsonSpec::Array(items) => if forall|i: int|
            0 <= i < items.len() ==> is_embedding(#[trigger] items[i]) {
            Some(items)
        } else {
            None
        },
        _ => None,
    }
}

/// The embeddings that the cache has for a key.
pub open spec fn cached_embeddings(
    cache: CacheSpec,
    key: Seq<char>,
    file: Option<Seq<char>>,
) -> Option<Seq<JsonSpec>> {
    match cache.found(key, file) {
        Some(v) => embeddings_in(as_hit(v)),
        None => None,
    }
}

/// Where a batch that begins at `from` ends.
pub open spec fn batch_end(from: int, size: int, total: int) -> int {
    if from + size <= total {
        from + size
    } else {
        total
    }
}

fn all_numbers(items: &Vec<Json>) -> (r: bool)
    ensures
        r == is_embedding(JsonSpec::Array(json_list(items@))),
{
    let ghost all = json_list(items@);
    let mut i: usize = 0;
    proof {
        lemma_json_list(items@);
    }
    while i < items.len()
        invariant
            i <= items.len(),
            all == json_list(items@),
            all.len() == items@.len(),
            forall|k: int| 0 <= k < items@.len() ==> #[trigger] all[k] == items@[k]@,
            forall|k: int| 0 <= k < i ==> (#[trigger] all[k]) is Int || all[k] is Float,
        decreases items.len() - i,
    {
        let number = match &items[i] {
            Json::Unsigned(_) => true,
            Json::Signed(_) => true,
            Json::Float(_) => true,
            _ => false,
        };
        proof {
            assert(all[i as int] == items@[i as int]@);
        }
        if !number {
            proof {
                assert(!(all[i as int] is Int || all[i as int] is Float));
            }
            return false;
        }
        i = i + 1;
    }
    true
}

/// The embeddings that a value is.
pub fn read_embeddings(j: Json) -> (r: Option<Vec<Json>>)
    ensures
        match r {
            Some(v) => embeddings_in(j@) == Some(json_list(v@)),
            None => embeddings_in(j@) is None,
        },
{
    match j {
        Json::Array(items) => {
            let ghost all = json_list(items@);
            let mut i: usize = 0;
            proof {
                lemma_json_list(items@);
            }
            while i < items.len()
                invariant
                    i <= items.len(),
                    j == Json::Array(items),
                    all == json_list(items@),
                    all.len() == items@.len(),
                    forall|k: int| 0 <= k < items@.len() ==> #[trigger] all[k] == items@[k]@,
                    forall|k: int| 0 <= k < i ==> is_embedding(#[trigger] all[k]),
                decreases items.len() - i,
            {
                proof {
                    assert(all[i as int] == items@[i as int]@);
                }
                let good = match &items[i] {
                    Json::Array(inner) => all_numbers(inner),
                    _ => false,
                };
                if !good {
                    proof {
                        assert(!is_embedding(all[i as int]));
                    }
                    return None;
                }
                i = i + 1;
            }
            Some(items)
        },
        _ => None,
    }
}

/// A call that embeds texts.
#[derive(Debug)]
pub struct EmbedRun {
    inputs: Vec<String>,
    batch_size: usize,
    kwargs: StrMap<Json>,
    next: usize,
    embeddings: Vec<Json>,
}

/// Where a call stands.
pub struct EmbedSpec {
    pub inputs: Seq<Seq<char>>,
    pub batch_size: nat,
    pub kwargs: Map<Seq<char>, JsonSpec>,
    /// Where the next batch begins.
    pub next: nat,
    /// The embeddings so far.
    pub embeddings: Seq<JsonSpec>,
}

impl EmbedSpec {
    /// The next batch.
    pub open spec fn batch(self) -> Seq<Seq<char>> {
        self.inputs.subrange(
            self.next as int,
            batch_end(self.next as int, self.batch_size as int, self.inputs.len() as int),
        )
    }

    /// The call with the embeddings of the next batch.
    pub open spec fn with_embeddings(self, more: Seq<JsonSpec>) -> EmbedSpec {
        EmbedSpec {
            next: batch_end(
                self.next as int,
                self.batch_size as int,
                self.inputs.len() as int,
            ) as nat,
            embeddings: self.embeddings + more,
            ..self
        }
    }
}

impl View for EmbedRun {
    type V = EmbedSpec;

    closed spec fn view(&self) -> EmbedSpec {
        EmbedSpec {
            inputs: texts(self.inputs@),
            batch_size: self.batch_size as nat,
            kwargs: json_object(self.kwargs),
            next: self.next as nat,
            embeddings: json_list(self.embeddings@),
        }
    }
}

/// Appends values to a list.
fn append_list(v: &mut Vec<Json>, more: Vec<Json>)
    ensures
        json_list(final(v)@) == json_list(old(v)@) + json_list(more@),
{
    let ghost before = v@;
    let ghost all = more@;
    for x in it: more
        invariant
            it.seq() == all,
            v@ == before + all.take(it.index() as int),
    {
        v.push(x);
        proof {
            let i = it.index() as int;
            assert(all.take(i + 1) =~= all.take(i).push(all[i]));
            assert(v@ =~= before + all.take(i + 1));
        }
    }
    proof {
        assert(all.take(all.len() as int) =~= all);
        lemma_json_list(before);
        lemma_json_list(all);
        lemma_json_list(v@);
        assert(json_list(v@) =~= json_list(before) + json_list(all));
    }
}

impl Embedder {
    /// An embedder without default arguments.
    pub fn new(model_id: &str, batch_size: usize, caching: bool) -> (r: Self)
        ensures
            r.model_id@ == model_id@,
            r.batch_size == batch_size,
            r.caching == caching,
            json_object(r.default_kwargs) == empty_object(),
    {
        Embedder {
            model_id: model_id.to_owned(),
            batch_size,
            caching,
            default_kwargs: new_object(),
        }
    }

    /// An embedder for batches of 200 texts, with a cache.
    pub fn with_defaults(model_id: &str) -> (r: Self)
        ensures
            r.model_id@ == model_id@,
            r.batch_size == 200,
            r.caching,
            json_object(r.default_kwargs) == empty_object(),
    {
        Embedder::new(model_id, 200, true)
    }

    /// An embedder with default arguments.
    pub fn with_kwargs(
        model_id: &str,
        batch_size: usize,
        caching: bool,
        kwargs: StrMap<Json>,
    ) -> (r: Self)
        ensures
            r.model_id@ == model_id@,
            r.batch_size == batch_size,
            r.caching == caching,
            r.default_kwargs == kwargs,
    {
        Embedder { model_id: model_id.to_owned(), batch_size, caching, default_kwargs: kwargs }
    }

    /// Whether there is a cache.
    pub fn caching(&self) -> (r: bool)
        ensures
            r == self.caching,
    {
        self.caching
    }

    /// Whether a call uses a cache: as it says itself, or else as the embedder does.
    pub fn uses_cache(&self, caching: Option<bool>) -> (r: bool)
        ensures
            r == match caching {
                Some(b) => b,
                None => self.caching,
            },
    {
        match caching {
            Some(b) => b,
            None => self.caching,
        }
    }

    /// The arguments of a call.
    pub fn merge_kwargs(&self, kwargs: Option<StrMap<Json>>) -> (r: StrMap<Json>)
        ensures
            json_object(r) == merged_kwargs(json_object(self.default_kwargs), opt_object(kwargs)),
    {
        let mut merged = copy_object(&self.default_kwargs);
        let ghost defaults = json_object(self.default_kwargs);
        if let Some(more) = kwargs {
            let ghost given = json_object(more);
            let ghost keys = more.keys();
            let n: usize = more.len();
            let mut i: usize = 0;
            proof {
                use_type_invariant(&more);
                more.lemma_shape();
                lemma_json_object(more);
                assert(keys.take(0) =~= Seq::<Seq<char>>::empty());
            }
            while i < n
                invariant
                    n == keys.len(),
                    i <= n,
                    keys == more.keys(),
                    more.wf(),
                    given == json_object(more),
                    given.dom() == more@.dom(),
                    forall|k: Seq<char>|
                        more@.contains_key(k) ==> #[trigger] given[k] == more@[k]@,
                    forall|k: int| 0 <= k < n ==> more@.contains_key(#[trigger] keys[k]),
                    forall|k: Seq<char>| #[trigger]
                        json_object(merged).contains_key(k) <==> (defaults.contains_key(k)
                            || keys.take(i as int).contains(k)),
                    forall|k: Seq<char>| #[trigger]
                        json_object(merged).contains_key(k) ==> json_object(merged)[k]
                            == if keys.take(i as int).contains(k) {
                            given[k]
                        } else {
                            defaults[k]
                        },
                decreases n - i,
            {
                let key = more.key_at(i);
                let value = more.value_at(i).copy();
                let ghost v = value@;
                proof {
                    assert(more@.contains_key(keys[i as int]));
                    assert(given[keys[i as int]] == more@[keys[i as int]]@);
                }
                put(&mut merged, key.as_str(), value);
                proof {
                    let a1 = keys.take(i as int);
                    let a2 = keys.take(i + 1);
                    assert(a2 =~= a1.push(keys[i as int]));
                    assert forall|y: Seq<char>| a2.contains(y) <==> (a1.contains(y) || y
                        == keys[i as int]) by {
                        if a1.contains(y) {
                            let j = choose|j: int| 0 <= j < a1.len() && a1[j] == y;
                            assert(a2[j] == y);
                        }
                        assert(a2[i as int] == keys[i as int]);
                    }
                }
                i = i + 1;
            }
            proof {
                assert(keys.take(i as int) =~= keys);
                more.lemma_shape();
                assert(json_object(merged) =~= defaults.union_prefer_right(given));
            }
        }
        merged
    }

    /// Begins a call. Where there are texts, a batch has at least one.
    pub fn begin(
        &self,
        inputs: Vec<String>,
        batch_size: Option<usize>,
        kwargs: Option<StrMap<Json>>,
    ) -> (r: EmbedRun)
        requires
            inputs@.len() > 0 ==> (match batch_size {
                Some(n) => n,
                None => self.batch_size,
            }) > 0,
        ensures
            r@ == (EmbedSpec {
                inputs: texts(inputs@),
                batch_size: (match batch_size {
                    Some(n) => n,
                    None => self.batch_size,
                }) as nat,
                kwargs: merged_kwargs(json_object(self.default_kwargs), opt_object(kwargs)),
                next: 0,
                embeddings: Seq::empty(),
            }),
    {
        let size: usize = match batch_size {
            Some(n) => n,
            None => self.batch_size,
        };
        let r = EmbedRun {
            inputs,
            batch_size: size,
            kwargs: self.merge_kwargs(kwargs),
            next: 0,
            embeddings: Vec::new(),
        };
        proof {
            lemma_json_list(r.embeddings@);
            assert(json_list(r.embeddings@) =~= Seq::<JsonSpec>::empty());
        }
        r
    }
}

impl EmbedRun {
    /// Where there are texts, a batch has at least one.
    #[verifier::type_invariant]
    pub closed spec fn wf(self) -> bool {
        &&& self.inputs@.len() > 0 ==> self.batch_size > 0
        &&& self.next <= self.inputs@.len()
    }

    /// The next batch, as long as there are texts left.
    pub fn next_batch(&self) -> (r: Option<Vec<String>>)
        ensures
            match r {
                Some(b) => self@.next < self@.inputs.len() && texts(b@) == self@.batch()
                    && b@.len() > 0,
                None => self@.next >= self@.inputs.len(),
            },
    {
        proof {
            use_type_invariant(self);
        }
        let total: usize = self.inputs.len();
        if self.next >= total {
            return None;
        }
        let end: usize = if total - self.next <= self.batch_size {
            total
        } else {
            self.next + self.batch_size
        };
        let ghost want = self@.batch();
        let mut b: Vec<String> = Vec::new();
        let mut i: usize = self.next;
        proof {
            assert(texts(b@) =~= want.take(0));
            assert(want.len() == end - self.next);
        }
        while i < end
            invariant
                self.next <= i <= end,
                end <= self.inputs@.len(),
                want == texts(self.inputs@).subrange(self.next as int, end as int),
                texts(b@) == want.take(i - self.next),
                b@.len() == i - self.next,
            decreases end - i,
        {
            push_text(&mut b, self.inputs[i].clone());
            proof {
                assert(want.take(i - self.next + 1) =~= want.take(i - self.next).push(
                    want[i - self.next],
                ));
            }
            i = i + 1;
        }
        proof {
            assert(want.take(i - self.next) =~= want);
        }
        Some(b)
    }

    /// The arguments for the model: nothing where there are none.
    pub fn model_kwargs(&self) -> (r: Option<&StrMap<Json>>)
        ensures
            match r {
                Some(m) => json_object(*m) == self@.kwargs && self@.kwargs != empty_object(),
                None => self@.kwargs == empty_object(),
            },
    {
        proof {
            use_type_invariant(&self.kwargs);
            self.kwargs.lemma_shape();
            lemma_json_object(self.kwargs);
        }
        if self.kwargs.is_empty() {
            proof {
                assert(json_object(self.kwargs) =~= empty_object());
            }
            None
        } else {
            proof {
                assert(self.kwargs@.contains_key(self.kwargs.keys()[0]));
                assert(json_object(self.kwargs).contains_key(self.kwargs.keys()[0]));
                assert(json_object(self.kwargs) != empty_object());
            }
            Some(&self.kwargs)
        }
    }

    /// The request that stands for a batch in the cache.
    pub fn request(&self, model_id: &str, batch: &Vec<String>) -> (r: Json)
        ensures
            r@ == embed_request(model_id@, texts(batch@), self@.kwargs),
    {
        let mut m = new_object();
        put_text(&mut m, "_fn", "embedder");
        put_text(&mut m, "model", model_id);
        put(&mut m, "inputs", texts_to_json(batch));
        put(&mut m, "kwargs", Json::Object(copy_object(&self.kwargs)));
        Json::Object(m)
    }

    fn advance(&mut self, more: Vec<Json>)
        ensures
            final(self)@ == old(self)@.with_embeddings(json_list(more@)),
    {
        proof {
            use_type_invariant(&*self);
        }
        let total: usize = self.inputs.len();
        let end: usize = if total - self.next <= self.batch_size {
            total
        } else {
            self.next + self.batch_size
        };
        let mut all: Vec<Json> = Vec::new();
        std::mem::swap(&mut all, &mut self.embeddings);
        append_list(&mut all, more);
        std::mem::swap(&mut all, &mut self.embeddings);
        self.next = end;
    }

    /// Asks the cache for the embeddings of the next batch. `file` is the text of the
    /// request's file in the cache.
    pub fn try_cache(
        &mut self,
        model_id: &str,
        batch: &Vec<String>,
        cache: &mut Cache,
        file: Option<&str>,
    ) -> (r: bool)
        ensures
            ({
                let key = key_of(
                    embed_request(model_id@, texts(batch@), old(self)@.kwargs),
                    ignored_of(None),
                );
                &&& final(cache)@ == old(cache)@.asked(key, opt_text_of(file))
                &&& match cached_embeddings(old(cache)@, key, opt_text_of(file)) {
                    Some(v) => r && final(self)@ == old(self)@.with_embeddings(v),
                    None => !r && final(self)@ == old(self)@,
                }
            }),
    {
        let request = self.request(model_id, batch);
        match cache.get(&request, None, file) {
            Some(v) => match read_embeddings(v) {
                Some(more) => {
                    self.advance(more);
                    true
                },
                None => false,
            },
            None => false,
        }
    }

    /// Takes the embeddings that the model gave for the next batch.
    pub fn on_embeddings(&mut self, more: Vec<Json>)
        ensures
            final(self)@ == old(self)@.with_embeddings(json_list(more@)),
    {
        self.advance(more);
    }

    /// Stores the embeddings of a batch. The result is the cache file to write.
    pub fn store(
        &self,
        model_id: &str,
        batch: &Vec<String>,
        embeddings: &Vec<Json>,
        cache: &mut Cache,
    ) -> (r: Option<DiskWrite>)
        ensures
            ({
                let key = key_of(
                    embed_request(model_id@, texts(batch@), self@.kwargs),
                    ignored_of(None),
                );
                let value = JsonSpec::Array(json_list(embeddings@));
                &&& final(cache)@ == old(cache)@.stored(key, value, true)
                &&& r is Some <==> old(cache)@.disk && byte_len_of(printed_json(value)) <= old(
                    cache,
                )@.disk_limit
                &&& r matches Some(w) ==> w.shard@ == key.take(2) && w.name@ == key + ".json"@
                    && w.data@ == printed_json(value) && (nests_within(value, 127) ==> file_value(
                    Some(w.data@),
                ) == Some(value)) && (embeddings_in(value) is Some ==> file_value(Some(w.data@))
                    == Some(value))
            }),
    {
        proof {
            if embeddings_in(JsonSpec::Array(json_list(embeddings@))) is Some {
                lemma_embeddings_nest(json_list(embeddings@));
            }
        }
        let request = self.request(model_id, batch);
        cache.put(&request, &Json::Array(copy_list(embeddings)), None, true)
    }

    /// The embeddings of all texts.
    pub fn finish(self) -> (r: Vec<Json>)
        ensures
            json_list(r@) == self@.embeddings,
    {
        self.embeddings
    }
}

/// The embedding of a single text, which is the first.
pub fn single_embedding(embeddings: Vec<Json>) -> (r: Result<Json>)
    ensures
        match r {
            Ok(j) => embeddings@.len() > 0 && j == embeddings@[0],
            Err(e) => embeddings@.len() == 0 && is_other_error(e, "No embedding returned"@),
        },
{
    let mut all = embeddings;
    if all.len() > 0 {
        Ok(all.remove(0))
    } else {
        Err(DspyError::Other("No embedding returned".to_string()))
    }
}

/// Embeddings nest no deeper than what can be read.
proof fn lemma_embeddings_nest(v: Seq<JsonSpec>)
    requires
        forall|i: int| 0 <= i < v.len() ==> is_embedding(#[trigger] v[i]),
    ensures
        nests_within(JsonSpec::Array(v), 127),
{
    assert forall|i: int| 0 <= i < v.len() implies nests_within(#[trigger] v[i], 126) by {
        assert(is_embedding(v[i]));
        let items = v[i]->Array_0;
        assert forall|k: int| 0 <= k < items.len() implies nests_within(
            #[trigger] items[k],
            125,
        ) by {}
    }
}

/// Embeddings that were stored for a batch are found for it again: in memory, or in the
/// file that was written.
pub proof fn law_embeddings_are_found_again(
    c: CacheSpec,
    model: Seq<char>,
    batch: Seq<Seq<char>>,
    kwargs: Map<Seq<char>, JsonSpec>,
    embeddings: Seq<JsonSpec>,
    file: Option<Seq<char>>,
)
    requires
        c.memory || (c.disk && file_value(file) == Some(JsonSpec::Array(embeddings))),
        forall|i: int| 0 <= i < embeddings.len() ==> is_embedding(#[trigger] embeddings[i]),
    ensures
        ({
            let key = key_of(embed_request(model, batch, kwargs), ignored_of(None));
            cached_embeddings(c.stored(key, JsonSpec::Array(embeddings), true), key, file) == Some(
                embeddings,
            )
        }),
{
    let key = key_of(embed_request(model, batch, kwargs), ignored_of(None));
    law_cache_gives_back(c, key, JsonSpec::Array(embeddings), file);
}

/// The batches of a call are its texts in order, and no batch is longer than asked.
pub proof fn law_batches_cover_the_texts(s: EmbedSpec, more: Seq<JsonSpec>)
    requires
        s.batch_size > 0,
        s.next < s.inputs.len(),
    ensures
        0 < s.batch().len() <= s.batch_size,
        s.inputs.take(s.next as int) + s.batch() == s.inputs.take(
            s.with_embeddings(more).next as int,
        ),
{
    assert(s.inputs.take(s.next as int) + s.batch() =~= s.inputs.take(
        s.with_embeddings(more).next as int,
    ));
}

} // verus!
