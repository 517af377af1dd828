//! Calls of a language model: their settings and replies, the history of calls,
//! and what the cache and the usage tracker have to do with a call.

use crate::cache::{
    as_hit, file_value, filtered, ignored_of, key_of, law_cache_gives_back, opt_text_of, Cache,
    CacheConfig, CacheSpec, DiskWrite,
};
use crate::json::{
    empty_object, json_list, lemma_json_list, nat_in, nests_within, new_object, parsed_json,
    printed_json, push_json, put, put_text, read_ok, record2, take_record2, Json, JsonFloat,
    JsonSpec,
};
use crate::message::{copy_messages, message_list, Message, MessageSpec};
use crate::text::byte_len_of;
use crate::usage_tracker::{added_usage, usage_of, UsageTracker};
use vstd::prelude::*;

verus! {

// ---------------------------------------------------------------------------
// Settings and replies
// ---------------------------------------------------------------------------

/// How a model is called. The numbers with a fraction are finite, and are held as
/// JSON prints them.
#[derive(Debug)]
pub struct LMConfig {
    pub model: String,
    pub temperature: Option<JsonFloat>,
    pub max_tokens: Option<u32>,
    pub top_p: Option<JsonFloat>,
    pub n: Option<u32>,
}

/// What settings say.
pub struct ConfigSpec {
    pub model: Seq<char>,
    pub temperature: Option<Seq<char>>,
    pub max_tokens: Option<u32>,
    pub top_p: Option<Seq<char>>,
    pub n: Option<u32>,
}

/// What an optional number says.
pub open spec fn opt_float(f: Option<JsonFloat>) -> Option<Seq<char>> {
    match f {
        Some(x) => Some(x@),
        None => None,
    }
}

impl View for LMConfig {
    type V = ConfigSpec;

    open spec fn view(&self) -> ConfigSpec {
        ConfigSpec {
            model: self.model@,
            temperature: opt_float(self.temperature),
            max_tokens: self.max_tokens,
            top_p: opt_float(self.top_p),
            n: self.n,
        }
    }
}

/// A copy of an optional number.
pub fn copy_float(f: &Option<JsonFloat>) -> (r: Option<JsonFloat>)
    ensures
        opt_float(r) == opt_float(*f),
{
    match f {
        Some(x) => Some(x.copy()),
        None => None,
    }
}

impl LMConfig {
    /// The settings of a model that leave everything else open.
    pub fn new(model: &str) -> (r: Self)
        ensures
            r@ == (ConfigSpec {
                model: model@,
                temperature: None,
                max_tokens: None,
                top_p: None,
                n: None,
            }),
    {
        LMConfig {
            model: model.to_owned(),
            temperature: None,
            max_tokens: None,
            top_p: None,
            n: None,
        }
    }
}

impl Clone for LMConfig {
    fn clone(&self) -> (r: Self)
        ensures
            r@ == self@,
    {
        LMConfig {
            model: self.model.clone(),
            temperature: copy_float(&self.temperature),
            max_tokens: self.max_tokens,
            top_p: copy_float(&self.top_p),
            n: self.n,
        }
    }
}

/// How many tokens a call used.
#[derive(Debug, Clone, Copy, PartialEq, Eq, Structural)]
pub struct Usage {
    pub prompt_tokens: u64,
    pub completion_tokens: u64,
}

/// A reply of a model.
#[derive(Debug)]
pub struct LMResponse {
    pub text: String,
    pub usage: Option<Usage>,
}

/// What a reply says.
pub struct ResponseSpec {
    pub text: Seq<char>,
    pub usage: Option<Usage>,
}

impl View for LMResponse {
    type V = ResponseSpec;

    open spec fn view(&self) -> ResponseSpec {
        ResponseSpec { text: self.text@, usage: self.usage }
    }
}

impl LMResponse {
    /// A reply with a text.
    pub fn new(text: String, usage: Option<Usage>) -> (r: Self)
        ensures
            r@ == (ResponseSpec { text: text@, usage }),
    {
        LMResponse { text, usage }
    }
}

impl Clone for LMResponse {
    fn clone(&self) -> (r: Self)
        ensures
            r@ == self@,
    {
        LMResponse { text: self.text.clone(), usage: self.usage }
    }
}

/// What the replies of a list say.
pub open spec fn response_list(v: Seq<LMResponse>) -> Seq<ResponseSpec> {
    v.map_values(|r: LMResponse| r@)
}

/// Appends a reply to a list.
pub fn push_response(v: &mut Vec<LMResponse>, r: LMResponse)
    ensures
        response_list(final(v)@) == response_list(old(v)@).push(r@),
{
    v.push(r);
    proof {
        assert(response_list(v@) =~= response_list(old(v)@).push(r@));
    }
}

/// A copy of a list of replies.
pub fn copy_responses(v: &Vec<LMResponse>) -> (r: Vec<LMResponse>)
    ensures
        response_list(r@) == response_list(v@),
{
    let ghost want = response_list(v@);
    let mut r: Vec<LMResponse> = Vec::new();
    let mut i: usize = 0;
    while i < v.len()
        invariant
            i <= v.len(),
            want == response_list(v@),
            response_list(r@) == want.take(i as int),
        decreases v.len() - i,
    {
        push_response(&mut r, v[i].clone());
        proof {
            assert(want.take(i + 1) =~= want.take(i as int).push(want[i as int]));
        }
        i = i + 1;
    }
    proof {
        assert(want.take(i as int) =~= want);
    }
    r
}

// ---------------------------------------------------------------------------
// Replies in JSON
// ---------------------------------------------------------------------------

/// Usage in JSON.
pub open spec fn usage_json(u: Usage) -> JsonSpec {
    JsonSpec::Object(
        empty_object().insert("prompt_tokens"@, JsonSpec::Int(u.prompt_tokens as int)).insert(
            "completion_tokens"@,
            JsonSpec::Int(u.completion_tokens as int),
        ),
    )
}

/// A reply in JSON.
pub open spec fn response_json(r: ResponseSpec) -> JsonSpec {
    JsonSpec::Object(
        empty_object().insert("text"@, JsonSpec::Text(r.text)).insert(
            "usage"@,
            match r.usage {
                Some(u) => usage_json(u),
                None => JsonSpec::Null,
            },
        ),
    )
}

/// Replies in JSON.
pub open spec fn responses_json(v: Seq<ResponseSpec>) -> JsonSpec {
    JsonSpec::Array(v.map_values(|r: ResponseSpec| response_json(r)))
}

/// The usage that a JSON value is.
pub open spec fn usage_in(j: JsonSpec) -> Option<Usage> {
    match record2(j, "prompt_tokens"@, "completion_tokens"@, None) {
        Some((a, b)) => match (nat_in(a), nat_in(b)) {
            (Some(x), Some(y)) => Some(
                Usage { prompt_tokens: x as u64, completion_tokens: y as u64 },
            ),
            _ => None,
        },
        None => None,
    }
}

/// The reply that a JSON value is.
pub open spec fn response_in(j: JsonSpec) -> Option<ResponseSpec> {
    match record2(j, "text"@, "usage"@, Some(JsonSpec::Null)) {
        Some((JsonSpec::Text(text), JsonSpec::Null)) => Some(ResponseSpec { text, usage: None }),
        Some((JsonSpec::Text(text), u)) => match usage_in(u) {
            Some(usage) => Some(ResponseSpec { text, usage: Some(usage) }),
            None => None,
        },
        _ => None,
    }
}

/// The replies that a list is, if each item is one.
pub open spec fn each_response(items: Seq<JsonSpec>) -> Option<Seq<ResponseSpec>>
    decreases items.len(),
{
    if items.len() == 0 {
        Some(Seq::empty())
    } else {
        match (each_response(items.drop_last()), response_in(items.last())) {
            (Some(front), Some(r)) => Some(front.push(r)),
            _ => None,
        }
    }
}

/// The replies that a JSON value is.
pub open spec fn responses_in(j: JsonSpec) -> Option<Seq<ResponseSpec>> {
    match j {
        JsonSpec::Array(items) => each_response(items),
        _ => None,
    }
}

fn usage_to_json(u: &Usage) -> (r: Json)
    ensures
        r@ == usage_json(*u),
{
    let mut m = new_object();
    put(&mut m, "prompt_tokens", Json::Unsigned(u.prompt_tokens));
    put(&mut m, "completion_tokens", Json::Unsigned(u.completion_tokens));
    Json::Object(m)
}

/// Replies in JSON.
pub fn responses_to_json(v: &Vec<LMResponse>) -> (r: Json)
    ensures
        r@ == responses_json(response_list(v@)),
{
    let ghost want = response_list(v@).map_values(|r: ResponseSpec| response_json(r));
    let mut items: Vec<Json> = Vec::new();
    let mut i: usize = 0;
    proof {
        lemma_json_list(items@);
        assert(json_list(items@) =~= want.take(0));
    }
    while i < v.len()
        invariant
            i <= v.len(),
            want == response_list(v@).map_values(|r: ResponseSpec| response_json(r)),
            json_list(items@) == want.take(i as int),
        decreases v.len() - i,
    {
        let mut m = new_object();
        put_text(&mut m, "text", v[i].text.as_str());
        let usage = match &v[i].usage {
            Some(u) => usage_to_json(u),
            None => Json::Null,
        };
        put(&mut m, "usage", usage);
        push_json(&mut items, Json::Object(m));
        proof {
            assert(want.take(i + 1) =~= want.take(i as int).push(want[i as int]));
        }
        i = i + 1;
    }
    proof {
        assert(want.take(i as int) =~= want);
    }
    Json::Array(items)
}

fn usage_from_json(j: &Json) -> (r: Option<Usage>)
    ensures
        r == usage_in(j@),
{
    match take_record2(j, "prompt_tokens", "completion_tokens") {
        Some((a, Some(b))) => match (a.as_u64(), b.as_u64()) {
            (Some(prompt_tokens), Some(completion_tokens)) => Some(
                Usage { prompt_tokens, completion_tokens },
            ),
            _ => None,
        },
        _ => None,
    }
}

fn response_from_json(j: &Json) -> (r: Option<LMResponse>)
    ensures
        match r {
            Some(x) => response_in(j@) == Some(x@),
            None => response_in(j@) is None,
        },
{
    match take_record2(j, "text", "usage") {
        Some((Json::Text(text), rest)) => match rest {
            None => Some(LMResponse { text: text.clone(), usage: None }),
            Some(Json::Null) => Some(LMResponse { text: text.clone(), usage: None }),
            Some(u) => match usage_from_json(u) {
                Some(usage) => Some(LMResponse { text: text.clone(), usage: Some(usage) }),
                None => None,
            },
        },
        _ => None,
    }
}

/// The replies that a JSON value is.
pub fn responses_from_json(j: &Json) -> (r: Option<Vec<LMResponse>>)
    ensures
        match r {
            Some(v) => responses_in(j@) == Some(response_list(v@)),
            None => responses_in(j@) is None,
        },
{
    match j {
        Json::Array(items) => {
            let ghost all = json_list(items@);
            let mut v: Vec<LMResponse> = Vec::new();
            let mut i: usize = 0;
            proof {
                lemma_json_list(items@);
                assert(all.take(0) =~= Seq::<JsonSpec>::empty());
                assert(response_list(v@) =~= Seq::<ResponseSpec>::empty());
            }
            while i < items.len()
                invariant
                    i <= items.len(),
                    j@ == JsonSpec::Array(all),
                    all.len() == items@.len(),
                    forall|k: int| 0 <= k < items@.len() ==> #[trigger] all[k] == items@[k]@,
                    each_response(all.take(i as int)) == Some(response_list(v@)),
                decreases items.len() - i,
            {
                proof {
                    assert(all.take(i + 1).drop_last() =~= all.take(i as int));
                    assert(all.take(i + 1).last() == items@[i as int]@);
                }
                match response_from_json(&items[i]) {
                    Some(x) => {
                        push_response(&mut v, x);
                    },
                    None => {
                        proof {
                            lemma_one_bad(all, i + 1);
                            assert(all.take(all.len() as int) =~= all);
                        }
                        return None;
                    },
                }
                i = i + 1;
            }
            proof {
                assert(all.take(i as int) =~= all);
            }
            Some(v)
        },
        _ => None,
    }
}

proof fn lemma_one_bad(items: Seq<JsonSpec>, n: int)
    requires
        0 <= n <= items.len(),
        each_response(items.take(n)) is None,
    ensures
        each_response(items) is None,
    decreases items.len() - n,
{
    if n < items.len() {
        assert(items.take(n + 1).drop_last() =~= items.take(n));
        lemma_one_bad(items, n + 1);
    } else {
        assert(items.take(n) =~= items);
    }
}

proof fn lemma_response_read(r: ResponseSpec)
    ensures
        response_in(response_json(r)) == Some(r),
{
    reveal_strlit("text");
    reveal_strlit("usage");
    reveal_strlit("prompt_tokens");
    reveal_strlit("completion_tokens");
    assert("text"@.len() == 4 && "usage"@.len() == 5);
    assert("prompt_tokens"@.len() == 13 && "completion_tokens"@.len() == 17);
    match r.usage {
        Some(u) => {
            assert(usage_in(usage_json(u)) == Some(u));
        },
        None => {},
    }
}

/// Replies are read back as what was written.
pub proof fn law_responses_are_read_back(v: Seq<ResponseSpec>)
    ensures
        responses_in(responses_json(v)) == Some(v),
    decreases v.len(),
{
    let items = v.map_values(|r: ResponseSpec| response_json(r));
    if v.len() > 0 {
        law_responses_are_read_back(v.drop_last());
        assert(items.drop_last() =~= v.drop_last().map_values(
            |r: ResponseSpec| response_json(r),
        ));
        lemma_response_read(v.last());
        assert(v.drop_last().push(v.last()) =~= v);
    } else {
        assert(v =~= Seq::<ResponseSpec>::empty());
    }
}

// ---------------------------------------------------------------------------
// The history
// ---------------------------------------------------------------------------

/// How many calls a history holds at most, where nothing else is set.
pub const MAX_GLOBAL_HISTORY: usize = 10000;

/// A call in the history.
#[derive(Debug)]
pub struct HistoryEntry {
    pub messages: Vec<Message>,
    pub response: Vec<LMResponse>,
    pub model: String,
    pub cache_hit: bool,
    pub timestamp: String,
}

/// What a call in the history says.
pub struct HistorySpec {
    pub messages: Seq<MessageSpec>,
    pub response: Seq<ResponseSpec>,
    pub model: Seq<char>,
    pub cache_hit: bool,
    pub timestamp: Seq<char>,
}

impl View for HistoryEntry {
    type V = HistorySpec;

    open spec fn view(&self) -> HistorySpec {
        HistorySpec {
            messages: message_list(self.messages@),
            response: response_list(self.response@),
            model: self.model@,
            cache_hit: self.cache_hit,
            timestamp: self.timestamp@,
        }
    }
}

impl Clone for HistoryEntry {
    fn clone(&self) -> (r: Self)
        ensures
            r@ == self@,
    {
        HistoryEntry {
            messages: copy_messages(&self.messages),
            response: copy_responses(&self.response),
            model: self.model.clone(),
            cache_hit: self.cache_hit,
            timestamp: self.timestamp.clone(),
        }
    }
}

/// The calls that were made, the latest last, up to a bound.
#[derive(Debug)]
pub struct GlobalHistory {
    entries: Vec<HistoryEntry>,
    max_size: usize,
}

impl View for GlobalHistory {
    type V = Seq<HistorySpec>;

    closed spec fn view(&self) -> Seq<HistorySpec> {
        self.entries@.map_values(|e: HistoryEntry| e@)
    }
}

impl GlobalHistory {
    /// There are no more calls than the history holds.
    #[verifier::type_invariant]
    pub closed spec fn wf(self) -> bool {
        self.entries@.len() <= self.max_size
    }

    /// How many calls the history holds at most.
    pub closed spec fn bound(self) -> nat {
        self.max_size as nat
    }

    /// A history without calls.
    pub fn new() -> (r: Self)
        ensures
            r@ == Seq::<HistorySpec>::empty(),
            r.bound() == MAX_GLOBAL_HISTORY,
    {
        let r = GlobalHistory { entries: Vec::new(), max_size: MAX_GLOBAL_HISTORY };
        proof {
            assert(r@ =~= Seq::<HistorySpec>::empty());
        }
        r
    }

    /// There are never more calls than the history holds.
    pub proof fn law_never_over_the_bound(self)
        requires
            self.wf(),
        ensures
            self@.len() <= self.bound(),
    {
    }
}

/// The last `n` calls.
pub open spec fn last_calls(h: Seq<HistorySpec>, n: int) -> Seq<HistorySpec> {
    if n >= h.len() {
        h
    } else {
        h.skip(h.len() - n)
    }
}

/// The history with a call added, as many of the last calls as the bound allows.
pub open spec fn recorded(h: Seq<HistorySpec>, e: HistorySpec, bound: nat) -> Seq<HistorySpec> {
    last_calls(h.push(e), bound as int)
}

/// The last `n` calls of the history.
pub fn inspect_history(history: &GlobalHistory, n: usize) -> (r: Vec<HistoryEntry>)
    ensures
        r@.map_values(|e: HistoryEntry| e@) == last_calls(history@, n as int),
{
    let len: usize = history.entries.len();
    let start: usize = if n >= len {
        0
    } else {
        len - n
    };
    let ghost want = last_calls(history@, n as int);
    let mut r: Vec<HistoryEntry> = Vec::new();
    let mut i: usize = start;
    proof {
        assert(want =~= history@.skip(start as int));
        assert(r@.map_values(|e: HistoryEntry| e@) =~= want.take(0));
    }
    while i < len
        invariant
            start <= i <= len,
            len == history.entries@.len(),
            want == history@.skip(start as int),
            r@.map_values(|e: HistoryEntry| e@) == want.take(i - start),
        decreases len - i,
    {
        let ghost before = r@;
        r.push(history.entries[i].clone());
        proof {
            assert(want.take(i - start + 1) =~= want.take(i - start).push(want[i - start]));
            assert(r@.map_values(|e: HistoryEntry| e@) =~= before.map_values(
                |e: HistoryEntry| e@,
            ).push(r@.last()@));
        }
        i = i + 1;
    }
    proof {
        assert(want.take(i - start) =~= want);
    }
    r
}

/// Forgets all calls.
pub fn clear_history(history: &mut GlobalHistory)
    ensures
        final(history)@ == Seq::<HistorySpec>::empty(),
        final(history).bound() == old(history).bound(),
{
    history.entries = Vec::new();
    proof {
        assert(history@ =~= Seq::<HistorySpec>::empty());
    }
}

/// Sets how many calls the history holds at most, as the settings say. The oldest calls
/// beyond that are let go.
pub fn set_max_history_size(history: &mut GlobalHistory, size: usize)
    ensures
        final(history)@ == last_calls(old(history)@, size as int),
        final(history).bound() == size,
{
    let ghost before = history@;
    let mut entries: Vec<HistoryEntry> = Vec::new();
    std::mem::swap(&mut entries, &mut history.entries);
    let n: usize = entries.len();
    if n > size {
        entries = entries.split_off(n - size);
    }
    proof {
        assert(entries@.map_values(|e: HistoryEntry| e@) =~= last_calls(before, size as int));
    }
    *history = GlobalHistory { entries, max_size: size };
}

/// Adds a call to the history. A full one lets go of the oldest call.
pub fn record_global_history(history: &mut GlobalHistory, entry: HistoryEntry)
    ensures
        final(history)@ == recorded(old(history)@, entry@, old(history).bound()),
        final(history).bound() == old(history).bound(),
{
    proof {
        use_type_invariant(&*history);
    }
    let ghost before = history@;
    let ghost e = entry@;
    let mut entries: Vec<HistoryEntry> = Vec::new();
    std::mem::swap(&mut entries, &mut history.entries);
    entries.push(entry);
    if entries.len() > history.max_size {
        let _ = entries.remove(0);
    }
    proof {
        assert(entries@.map_values(|e: HistoryEntry| e@) =~= recorded(
            before,
            e,
            history.bound(),
        ));
    }
    std::mem::swap(&mut entries, &mut history.entries);
}

/// The history is never longer than it may be, and its last call is the one that
/// was added last, unless it holds none at all.
pub proof fn law_history_is_bounded(h: Seq<HistorySpec>, e: HistorySpec, bound: nat)
    ensures
        recorded(h, e, bound).len() <= bound,
        bound > 0 ==> last_calls(recorded(h, e, bound), 1) == seq![e],
{
    if bound > 0 {
        assert(last_calls(recorded(h, e, bound), 1) =~= seq![e]);
    }
}

// ---------------------------------------------------------------------------
// The shared cache
// ---------------------------------------------------------------------------

/// The caches that calls share: one that is there by default, and one that was
/// set up.
#[derive(Debug)]
pub struct SharedCache {
    pub global: Option<Cache>,
    pub configured: Option<Cache>,
}

/// A cache that is set up by default.
pub open spec fn is_default_cache(c: CacheSpec) -> bool {
    c.memory && !c.disk && c.recent.len() == 0 && c.bound == 1_000_000
}

impl SharedCache {
    /// No cache is there yet.
    pub fn new() -> (r: Self)
        ensures
            r.global is None,
            r.configured is None,
    {
        SharedCache { global: None, configured: None }
    }
}

/// Sets up the shared cache.
pub fn configure_cache(shared: &mut SharedCache, config: CacheConfig)
    requires
        config.memory_max_entries > 0,
    ensures
        final(shared).global == old(shared).global,
        final(shared).configured matches Some(c) && c@ == (CacheSpec {
            memory: config.enable_memory_cache,
            disk: config.enable_disk_cache,
            recent: Seq::empty(),
            bound: config.memory_max_entries as nat,
            dir: config.disk_cache_dir@,
            disk_limit: config.disk_size_limit_bytes as nat,
        }),
{
    shared.configured = Some(Cache::new(config));
}

/// Forgets the shared caches.
pub fn reset_global_cache(shared: &mut SharedCache)
    ensures
        final(shared).global is None,
        final(shared).configured is None,
{
    shared.configured = None;
    shared.global = None;
}

/// Takes the shared cache for a call: the one that was set up, or else the one
/// that is there by default, which is made when it is first needed.
pub fn take_effective_cache(shared: &mut SharedCache) -> (r: Cache)
    ensures
        match old(shared).configured {
            Some(c) => r == c && final(shared).configured is None && final(shared).global == old(
                shared,
            ).global,
            None => final(shared).configured is None && final(shared).global is None && match old(
                shared,
            ).global {
                Some(c) => r == c,
                None => is_default_cache(r@),
            },
        },
{
    match shared.configured.take() {
        Some(c) => c,
        None => match shared.global.take() {
            Some(c) => c,
            None => Cache::default_memory_only(),
        },
    }
}

/// Puts the shared cache back after a call; `configured` says whether it is the
/// one that was set up.
pub fn return_effective_cache(shared: &mut SharedCache, cache: Cache, configured: bool)
    ensures
        configured ==> final(shared).configured == Some(cache) && final(shared).global == old(
            shared,
        ).global,
        !configured ==> final(shared).global == Some(cache) && final(shared).configured == old(
            shared,
        ).configured,
{
    if configured {
        shared.configured = Some(cache);
    } else {
        shared.global = Some(cache);
    }
}

// ---------------------------------------------------------------------------
// A call
// ---------------------------------------------------------------------------

/// What a call works with.
#[derive(Debug)]
pub struct CallContext {
    /// The cache, where the call may use one.
    pub cache: Option<Cache>,
    pub history: GlobalHistory,
    pub usage_tracker: Option<UsageTracker>,
    pub disable_history: bool,
}

/// What a call asks for next.
#[derive(Debug)]
pub enum CallStep {
    /// The cache had the replies.
    Answered(Vec<LMResponse>),
    /// The model is to be called. With a cache, its replies are stored for this
    /// request.
    Ask(Option<Json>),
}

/// A message in JSON.
pub open spec fn message_json(m: MessageSpec) -> JsonSpec {
    JsonSpec::Object(
        empty_object().insert("role"@, JsonSpec::Text(m.role)).insert(
            "content"@,
            JsonSpec::Text(m.content),
        ),
    )
}

/// The request that stands for a call in the cache.
pub open spec fn request_json(
    model: Seq<char>,
    messages: Seq<MessageSpec>,
    config: ConfigSpec,
) -> JsonSpec {
    JsonSpec::Object(
        empty_object().insert("model"@, JsonSpec::Text(model)).insert(
            "messages"@,
            JsonSpec::Array(messages.map_values(|m: MessageSpec| message_json(m))),
        ).insert(
            "temperature"@,
            match config.temperature {
                Some(t) => JsonSpec::Float(t),
                None => JsonSpec::Null,
            },
        ).insert(
            "max_tokens"@,
            match config.max_tokens {
                Some(n) => JsonSpec::Int(n as int),
                None => JsonSpec::Null,
            },
        ),
    )
}

/// The replies that the cache has for a key.
pub open spec fn cached_replies(
    cache: CacheSpec,
    key: Seq<char>,
    file: Option<Seq<char>>,
) -> Option<Seq<ResponseSpec>> {
    match cache.found(key, file) {
        Some(v) => responses_in(as_hit(v)),
        None => None,
    }
}

/// The usage of replies, added to that of the models.
pub open spec fn tracked_usage(
    u: Map<Seq<char>, Seq<JsonSpec>>,
    model: Seq<char>,
    replies: Seq<ResponseSpec>,
) -> Map<Seq<char>, Seq<JsonSpec>>
    decreases replies.len(),
{
    if replies.len() == 0 {
        u
    } else {
        let front = tracked_usage(u, model, replies.drop_last());
        match replies.last().usage {
            Some(x) => added_usage(front, model, usage_json(x)),
            None => front,
        }
    }
}

/// The messages of a list, in JSON.
fn messages_to_json(messages: &Vec<Message>) -> (r: Json)
    ensures
        r@ == JsonSpec::Array(
            message_list(messages@).map_values(|m: MessageSpec| message_json(m)),
        ),
{
    let ghost want = message_list(messages@).map_values(|m: MessageSpec| message_json(m));
    let mut items: Vec<Json> = Vec::new();
    let mut i: usize = 0;
    proof {
        lemma_json_list(items@);
        assert(json_list(items@) =~= want.take(0));
    }
    while i < messages.len()
        invariant
            i <= messages.len(),
            want == message_list(messages@).map_values(|m: MessageSpec| message_json(m)),
            json_list(items@) == want.take(i as int),
        decreases messages.len() - i,
    {
        let mut m = new_object();
        put_text(&mut m, "role", messages[i].role.as_str());
        put_text(&mut m, "content", messages[i].content.as_str());
        push_json(&mut items, Json::Object(m));
        proof {
            assert(want.take(i + 1) =~= want.take(i as int).push(want[i as int]));
        }
        i = i + 1;
    }
    proof {
        assert(want.take(i as int) =~= want);
    }
    Json::Array(items)
}

/// The request that stands for a call in the cache.
pub fn cache_request(model: &str, messages: &Vec<Message>, config: &LMConfig) -> (r: Json)
    ensures
        r@ == request_json(model@, message_list(messages@), config@),
{
    let mut m = new_object();
    put_text(&mut m, "model", model);
    put(&mut m, "messages", messages_to_json(messages));
    let temperature = match &config.temperature {
        Some(t) => Json::Float(t.copy()),
        None => Json::Null,
    };
    put(&mut m, "temperature", temperature);
    let max_tokens = match config.max_tokens {
        Some(n) => Json::Unsigned(n as u64),
        None => Json::Null,
    };
    put(&mut m, "max_tokens", max_tokens);
    Json::Object(m)
}

/// Adds the usage of replies to that of the models.
fn track_usage(tracker: &mut UsageTracker, model: &str, replies: &Vec<LMResponse>)
    ensures
        usage_of(final(tracker).usage_data) == tracked_usage(
            usage_of(old(tracker).usage_data),
            model@,
            response_list(replies@),
        ),
{
    let ghost before = usage_of(tracker.usage_data);
    let ghost all = response_list(replies@);
    let mut i: usize = 0;
    proof {
        assert(all.take(0) =~= Seq::<ResponseSpec>::empty());
    }
    while i < replies.len()
        invariant
            i <= replies.len(),
            all == response_list(replies@),
            usage_of(tracker.usage_data) == tracked_usage(before, model@, all.take(i as int)),
        decreases replies.len() - i,
    {
        proof {
            assert(all.take(i + 1).drop_last() =~= all.take(i as int));
            assert(all.take(i + 1).last() == replies@[i as int]@);
        }
        if let Some(u) = &replies[i].usage {
            tracker.add_usage(model, usage_to_json(u));
        }
        i = i + 1;
    }
    proof {
        assert(all.take(i as int) =~= all);
    }
}

/// What a call leaves in the history.
pub open spec fn history_after(
    c: CallContext,
    model: Seq<char>,
    messages: Seq<MessageSpec>,
    replies: Seq<ResponseSpec>,
    cache_hit: bool,
    timestamp: Seq<char>,
) -> Seq<HistorySpec> {
    if c.disable_history {
        c.history@
    } else {
        recorded(
            c.history@,
            HistorySpec { messages, response: replies, model, cache_hit, timestamp },
            c.history.bound(),
        )
    }
}

fn note_call(
    history: &mut GlobalHistory,
    model: &str,
    messages: &Vec<Message>,
    replies: &Vec<LMResponse>,
    cache_hit: bool,
    timestamp: &str,
)
    ensures
        final(history)@ == recorded(
            old(history)@,
            HistorySpec {
                messages: message_list(messages@),
                response: response_list(replies@),
                model: model@,
                cache_hit,
                timestamp: timestamp@,
            },
            old(history).bound(),
        ),
        final(history).bound() == old(history).bound(),
{
    record_global_history(
        history,
        HistoryEntry {
            messages: copy_messages(messages),
            response: copy_responses(replies),
            model: model.to_owned(),
            cache_hit,
            timestamp: timestamp.to_owned(),
        },
    );
}

impl CallContext {
    /// The key of the file to read before the call begins, if there is one to
    /// read.
    pub fn file_needed(&self, model: &str, messages: &Vec<Message>, config: &LMConfig) -> (r:
        Option<String>)
        ensures
            ({
                let key = key_of(
                    request_json(model@, message_list(messages@), config@),
                    ignored_of(None),
                );
                match (self.cache, r) {
                    (Some(c), Some(k)) => k@ == key && c@.disk && c@.remembered(key) is None,
                    (Some(c), None) => !c@.disk || c@.remembered(key) is Some,
                    (None, _) => r is None,
                }
            }),
    {
        match &self.cache {
            Some(c) => c.file_needed(&cache_request(model, messages, config), None),
            None => None,
        }
    }

    /// Begins a call: the cache answers it, or the model is to be called. `file`
    /// is the text of the request's file in the cache.
    pub fn begin(
        &mut self,
        model: &str,
        messages: &Vec<Message>,
        config: &LMConfig,
        file: Option<&str>,
        timestamp: &str,
    ) -> (r: CallStep)
        ensures
            final(self).disable_history == old(self).disable_history,
            final(self).history.bound() == old(self).history.bound(),
            final(self).usage_tracker == old(self).usage_tracker,
            ({
                let request = request_json(model@, message_list(messages@), config@);
                let key = key_of(request, ignored_of(None));
                match old(self).cache {
                    Some(c) => {
                        &&& final(self).cache matches Some(d) && d@ == c@.asked(
                            key,
                            opt_text_of(file),
                        )
                        &&& match cached_replies(c@, key, opt_text_of(file)) {
                            Some(v) => {
                                &&& r matches CallStep::Answered(x) && response_list(x@) == v
                                &&& final(self).history@ == history_after(
                                    *old(self),
                                    model@,
                                    message_list(messages@),
                                    v,
                                    true,
                                    timestamp@,
                                )
                            },
                            None => {
                                &&& r matches CallStep::Ask(Some(q)) && q@ == request
                                &&& final(self).history@ == old(self).history@
                            },
                        }
                    },
                    None => {
                        &&& r == CallStep::Ask(None)
                        &&& final(self).cache is None
                        &&& final(self).history@ == old(self).history@
                    },
                }
            }),
    {
        match self.cache.take() {
            Some(c) => {
                let mut cache = c;
                let request = cache_request(model, messages, config);
                let hit = cache.get(&request, None, file);
                self.cache = Some(cache);
                if let Some(v) = hit {
                    if let Some(replies) = responses_from_json(&v) {
                        if !self.disable_history {
                            note_call(
                                &mut self.history,
                                model,
                                messages,
                                &replies,
                                true,
                                timestamp,
                            );
                        }
                        return CallStep::Answered(replies);
                    }
                }
                CallStep::Ask(Some(request))
            },
            None => CallStep::Ask(None),
        }
    }

    /// Ends a call that the model answered: the replies are stored for the
    /// request, their usage is added up, and the call goes into the history. The
    /// result is the cache file to write.
    pub fn finish(
        &mut self,
        model: &str,
        messages: &Vec<Message>,
        request: Option<Json>,
        replies: &Vec<LMResponse>,
        timestamp: &str,
    ) -> (r: Option<DiskWrite>)
        ensures
            final(self).disable_history == old(self).disable_history,
            final(self).history.bound() == old(self).history.bound(),
            final(self).history@ == history_after(
                *old(self),
                model@,
                message_list(messages@),
                response_list(replies@),
                false,
                timestamp@,
            ),
            match old(self).usage_tracker {
                Some(t) => final(self).usage_tracker matches Some(u) && usage_of(u.usage_data)
                    == tracked_usage(usage_of(t.usage_data), model@, response_list(replies@)),
                None => final(self).usage_tracker is None,
            },
            match (old(self).cache, request) {
                (Some(c), Some(q)) => {
                    let key = key_of(q@, ignored_of(None));
                    let value = responses_json(response_list(replies@));
                    &&& final(self).cache matches Some(d) && d@ == c@.stored(key, value, true)
                    &&& r is Some <==> c@.disk && byte_len_of(printed_json(value))
                        <= c@.disk_limit
                    &&& r matches Some(w) ==> w.shard@ == key.take(2) && w.name@ == key + ".json"@
                        && w.data@ == printed_json(value) && file_value(Some(w.data@)) == Some(
                        value,
                    )
                },
                _ => r is None && final(self).cache == old(self).cache,
            },
    {
        proof {
            lemma_responses_nest(response_list(replies@));
        }
        let write = match request {
            Some(q) => match self.cache.take() {
                Some(c) => {
                    let mut cache = c;
                    let w = cache.put(&q, &responses_to_json(replies), None, true);
                    self.cache = Some(cache);
                    w
                },
                None => None,
            },
            None => None,
        };
        if let Some(t) = self.usage_tracker.take() {
            let mut tracker = t;
            track_usage(&mut tracker, model, replies);
            self.usage_tracker = Some(tracker);
        }
        if !self.disable_history {
            note_call(&mut self.history, model, messages, replies, false, timestamp);
        }
        write
    }
}

/// Replies in JSON nest no deeper than what can be read.
proof fn lemma_responses_nest(v: Seq<ResponseSpec>)
    ensures
        nests_within(responses_json(v), 127),
{
    let items = v.map_values(|r: ResponseSpec| response_json(r));
    assert forall|i: int| 0 <= i < items.len() implies nests_within(#[trigger] items[i], 126) by {
        let m = items[i]->Object_0;
        assert forall|k: Seq<char>| m.contains_key(k) implies nests_within(
            #[trigger] m[k],
            125,
        ) by {
            if let JsonSpec::Object(u) = m[k] {
                assert forall|x: Seq<char>| u.contains_key(x) implies nests_within(
                    #[trigger] u[x],
                    124,
                ) by {}
            }
        }
    }
}

/// A call that the model answered is answered from the cache when it is made again, with
/// the replies that the model gave: from memory, or from the file that was written.
pub proof fn law_call_is_answered_again(
    c: CacheSpec,
    model: Seq<char>,
    messages: Seq<MessageSpec>,
    config: ConfigSpec,
    replies: Seq<ResponseSpec>,
    file: Option<Seq<char>>,
)
    requires
        c.memory || (c.disk && file_value(file) == Some(responses_json(replies))),
    ensures
        ({
            let key = key_of(request_json(model, messages, config), ignored_of(None));
            cached_replies(c.stored(key, responses_json(replies), true), key, file) == Some(
                replies,
            )
        }),
{
    let key = key_of(request_json(model, messages, config), ignored_of(None));
    law_cache_gives_back(c, key, responses_json(replies), file);
    law_responses_are_read_back(replies);
}

/// The messages that a request holds tell what was said: each with its role and content.
proof fn lemma_messages_told_apart(a: Seq<MessageSpec>, b: Seq<MessageSpec>)
    requires
        a.map_values(|m: MessageSpec| message_json(m)) == b.map_values(
            |m: MessageSpec| message_json(m),
        ),
    ensures
        a == b,
{
    let x = a.map_values(|m: MessageSpec| message_json(m));
    let y = b.map_values(|m: MessageSpec| message_json(m));
    reveal_strlit("role");
    reveal_strlit("content");
    assert("role"@.len() != "content"@.len());
    assert(x.len() == a.len() && y.len() == b.len());
    assert forall|i: int| 0 <= i < a.len() implies a[i] == b[i] by {
        assert(x[i] == y[i]);
        let p = x[i]->Object_0;
        let q = y[i]->Object_0;
        assert(p["role"@] == JsonSpec::Text(a[i].role));
        assert(q["role"@] == JsonSpec::Text(b[i].role));
        assert(p["content"@] == JsonSpec::Text(a[i].content));
        assert(q["content"@] == JsonSpec::Text(b[i].content));
    }
    assert(a =~= b);
}

/// Requests tell calls apart: two calls with one request have the same model, the same
/// messages, each with the same role and content, the same temperature and the same
/// bound on tokens.
pub proof fn law_requests_tell_calls_apart(
    model: Seq<char>,
    messages: Seq<MessageSpec>,
    config: ConfigSpec,
    other_model: Seq<char>,
    other_messages: Seq<MessageSpec>,
    other_config: ConfigSpec,
)
    requires
        request_json(model, messages, config) == request_json(
            other_model,
            other_messages,
            other_config,
        ),
    ensures
        model == other_model,
        messages == other_messages,
        config.temperature == other_config.temperature,
        config.max_tokens == other_config.max_tokens,
{
    reveal_strlit("model");
    reveal_strlit("messages");
    reveal_strlit("temperature");
    reveal_strlit("max_tokens");
    assert("model"@.len() == 5 && "messages"@.len() == 8);
    assert("temperature"@.len() == 11 && "max_tokens"@.len() == 10);
    let p = request_json(model, messages, config)->Object_0;
    let q = request_json(other_model, other_messages, other_config)->Object_0;
    assert(p["model"@] == q["model"@]);
    assert(p["messages"@] == q["messages"@]);
    assert(p["temperature"@] == q["temperature"@]);
    assert(p["max_tokens"@] == q["max_tokens"@]);
    lemma_messages_told_apart(messages, other_messages);
}

/// The texts that are hashed for the keys tell calls apart: where both are read as what
/// they were printed for, two calls with one text have the same model, messages,
/// temperature and bound on tokens.
pub proof fn law_hashed_texts_tell_calls_apart(
    model: Seq<char>,
    messages: Seq<MessageSpec>,
    config: ConfigSpec,
    other_model: Seq<char>,
    other_messages: Seq<MessageSpec>,
    other_config: ConfigSpec,
)
    requires
        ({
            let hashed = filtered(request_json(model, messages, config), ignored_of(None));
            let other = filtered(
                request_json(other_model, other_messages, other_config),
                ignored_of(None),
            );
            &&& parsed_json(printed_json(hashed)) == read_ok(hashed)
            &&& parsed_json(printed_json(other)) == read_ok(other)
            &&& printed_json(hashed) == printed_json(other)
        }),
    ensures
        model == other_model,
        messages == other_messages,
        config.temperature == other_config.temperature,
        config.max_tokens == other_config.max_tokens,
{
    lemma_request_is_hashed_whole(model, messages, config);
    lemma_request_is_hashed_whole(other_model, other_messages, other_config);
    law_requests_tell_calls_apart(
        model,
        messages,
        config,
        other_model,
        other_messages,
        other_config,
    );
}

proof fn lemma_request_is_hashed_whole(
    model: Seq<char>,
    messages: Seq<MessageSpec>,
    config: ConfigSpec,
)
    ensures
        filtered(request_json(model, messages, config), ignored_of(None)) == request_json(
            model,
            messages,
            config,
        ),
{
    reveal_strlit("model");
    reveal_strlit("messages");
    reveal_strlit("temperature");
    reveal_strlit("max_tokens");
    reveal_strlit("api_key");
    reveal_strlit("api_base");
    reveal_strlit("base_url");
    assert("messages"@[0] == 'm' && "api_base"@[0] == 'a' && "base_url"@[0] == 'b');
    let m = request_json(model, messages, config)->Object_0;
    let ignored = ignored_of(None);
    assert forall|k: Seq<char>| ignored.to_set().contains(k) implies !m.contains_key(k) by {
        let i = choose|i: int| 0 <= i < ignored.len() && ignored[i] == k;
        assert(i == 0 || i == 1 || i == 2);
        assert("api_key"@.len() == 7 && "api_base"@.len() == 8 && "base_url"@.len() == 8);
        assert("messages"@.len() == 8 && "model"@.len() == 5);
        assert("temperature"@.len() == 11 && "max_tokens"@.len() == 10);
    }
    assert(m.remove_keys(ignored.to_set()) =~= m);
}

} // verus!
