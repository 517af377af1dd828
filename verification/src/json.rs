//! JSON values as the library holds them, and their texts.
//!
//! Parsing and printing are those of `serde_json`. Between a text and a [`Json`]
//! stands a `serde_json::Value`, which is taken apart and put together one level
//! at a time.

use crate::strmap::{entry_keys, entry_map, StrMap};
use crate::text::{same, trim_of};
use serde_json::Value as RawJson;
use vstd::prelude::*;

verus! {

// ---------------------------------------------------------------------------
// Values
// ---------------------------------------------------------------------------

/// What a JSON value says: the order of the keys of an object does not show, nor
/// does the way an integer is held.
pub enum JsonSpec {
    Null,
    Bool(bool),
    Int(int),
    /// A number with a fraction or an exponent, as it is printed.
    Float(Seq<char>),
    Text(Seq<char>),
    Array(Seq<JsonSpec>),
    Object(Map<Seq<char>, JsonSpec>),
}

/// A number with a fraction or an exponent, held as the text that prints it.
#[derive(Debug)]
pub struct JsonFloat {
    text: String,
}

impl JsonFloat {
    /// The text is the printed form of a floating-point number.
    #[verifier::type_invariant]
    pub closed spec fn wf(self) -> bool {
        float_literal(self.text@)
    }

    pub closed spec fn view(self) -> Seq<char> {
        self.text@
    }

    /// The printed form.
    pub fn as_text(&self) -> (r: &str)
        ensures
            r@ == self@,
            float_literal(r@),
    {
        proof {
            use_type_invariant(&*self);
        }
        self.text.as_str()
    }

    /// The number that `text` is the printed form of.
    pub fn parse(text: &str) -> (r: Option<JsonFloat>)
        ensures
            r is Some <==> float_literal(text@),
            r matches Some(f) ==> f@ == text@,
            text@ == "0.7"@ ==> r is Some,
    {
        match read_number(text) {
            Some((float, printed)) => if float && same(printed.as_str(), text) {
                Some(JsonFloat { text: printed })
            } else {
                None
            },
            None => None,
        }
    }

    /// A copy.
    pub fn copy(&self) -> (r: JsonFloat)
        ensures
            r@ == self@,
    {
        proof {
            use_type_invariant(&*self);
        }
        JsonFloat { text: self.text.clone() }
    }
}

/// A JSON value.
#[derive(Debug)]
pub enum Json {
    Null,
    Bool(bool),
    Unsigned(u64),
    Signed(i64),
    Float(JsonFloat),
    Text(String),
    Array(Vec<Json>),
    Object(StrMap<Json>),
}

/// What `j` says.
pub open spec fn json_view(j: Json) -> JsonSpec
    decreases j,
{
    match j {
        Json::Null => JsonSpec::Null,
        Json::Bool(b) => JsonSpec::Bool(b),
        Json::Unsigned(n) => JsonSpec::Int(n as int),
        Json::Signed(n) => JsonSpec::Int(n as int),
        Json::Float(f) => JsonSpec::Float(f@),
        Json::Text(s) => JsonSpec::Text(s@),
        Json::Array(v) => JsonSpec::Array(json_list(v@)),
        Json::Object(m) => JsonSpec::Object(json_object(m)),
    }
}

/// What the items of a list say.
pub open spec fn json_list(v: Seq<Json>) -> Seq<JsonSpec>
    decreases v,
{
    if v.len() == 0 {
        Seq::empty()
    } else {
        json_list(v.drop_last()).push(json_view(v.last()))
    }
}

/// What the entries of an object say.
pub closed spec fn json_object(m: StrMap<Json>) -> Map<Seq<char>, JsonSpec>
    decreases m,
{
    json_entries(m.entries@)
}

spec fn json_entries(e: Seq<(String, Json)>) -> Map<Seq<char>, JsonSpec>
    decreases e,
{
    if e.len() == 0 {
        Map::empty()
    } else {
        json_entries(e.drop_last()).insert(e.last().0@, json_view(e.last().1))
    }
}

impl View for Json {
    type V = JsonSpec;

    open spec fn view(&self) -> JsonSpec {
        json_view(*self)
    }
}

/// A list says what its items say.
pub proof fn lemma_json_list(v: Seq<Json>)
    ensures
        json_list(v).len() == v.len(),
        forall|i: int| 0 <= i < v.len() ==> #[trigger] json_list(v)[i] == v[i]@,
    decreases v.len(),
{
    if v.len() > 0 {
        lemma_json_list(v.drop_last());
    }
}

proof fn lemma_json_entries(e: Seq<(String, Json)>)
    requires
        entry_keys(e).no_duplicates(),
    ensures
        json_entries(e).dom() == entry_map(e).dom(),
        forall|k: Seq<char>|
            entry_map(e).contains_key(k) ==> #[trigger] json_entries(e)[k] == entry_map(e)[k]@,
    decreases e.len(),
{
    if e.len() > 0 {
        let front = e.drop_last();
        assert(entry_keys(front) =~= entry_keys(e).drop_last());
        lemma_json_entries(front);
        assert(json_entries(e).dom() =~= entry_map(e).dom());
    }
}

/// An object says what its entries say.
pub proof fn lemma_json_object(m: StrMap<Json>)
    requires
        m.wf(),
    ensures
        json_object(m).dom() == m@.dom(),
        forall|k: Seq<char>|
            m@.contains_key(k) ==> #[trigger] json_object(m)[k] == m@[k]@,
{
    m.lemma_entries();
    lemma_json_entries(m.entries@);
}

/// Putting a value under a key puts what it says under that key.
pub proof fn lemma_object_insert(a: StrMap<Json>, b: StrMap<Json>, k: Seq<char>, v: Json)
    requires
        a.wf(),
        b.wf(),
        b@ == a@.insert(k, v),
    ensures
        json_object(b) == json_object(a).insert(k, v@),
{
    lemma_json_object(a);
    lemma_json_object(b);
    assert(json_object(b) =~= json_object(a).insert(k, v@));
}

/// Taking a key out takes out what it says.
pub proof fn lemma_object_remove(a: StrMap<Json>, b: StrMap<Json>, k: Seq<char>)
    requires
        a.wf(),
        b.wf(),
        b@ == a@.remove(k),
    ensures
        json_object(b) == json_object(a).remove(k),
{
    lemma_json_object(a);
    lemma_json_object(b);
    assert(json_object(b) =~= json_object(a).remove(k));
}

/// The empty object says nothing.
pub proof fn lemma_object_empty(a: StrMap<Json>)
    requires
        a.wf(),
        a@ == Map::<Seq<char>, Json>::empty(),
    ensures
        json_object(a) == Map::<Seq<char>, JsonSpec>::empty(),
{
    lemma_json_object(a);
    assert(json_object(a) =~= Map::<Seq<char>, JsonSpec>::empty());
}

// ---------------------------------------------------------------------------
// The outside parser and printer
// ---------------------------------------------------------------------------

/// `serde_json::Value`, whose content is named by [`value_content`].
#[verifier::external_type_specification]
#[verifier::external_body]
pub struct ExRawJson(RawJson);

/// What a `serde_json::Value` holds: its numbers, texts, items and entries.
pub uninterp spec fn value_content(v: RawJson) -> JsonSpec;

/// What `serde_json::from_str` reads in a text, or the message of its error.
pub uninterp spec fn parsed_json(text: Seq<char>) -> Result<JsonSpec, Seq<char>>;

/// A text that reads as `j`.
pub open spec fn read_ok(j: JsonSpec) -> Result<JsonSpec, Seq<char>> {
    Ok(j)
}

/// A text that does not read, with the message that says why.
pub open spec fn read_err(message: Seq<char>) -> Result<JsonSpec, Seq<char>> {
    Err(message)
}

/// The text that `serde_json::to_string` gives for a value.
pub uninterp spec fn printed_json(j: JsonSpec) -> Seq<char>;

/// The text that `serde_json::to_string_pretty` gives for a value.
pub uninterp spec fn pretty_json(j: JsonSpec) -> Seq<char>;

/// The number that `serde_json` reads in a text, if there is one: whether it is a
/// floating-point number, and the text that it prints as.
pub uninterp spec fn number_read(text: Seq<char>) -> Option<(bool, Seq<char>)>;

/// Whether a text is what `serde_json` prints for some floating-point number.
pub open spec fn float_literal(text: Seq<char>) -> bool {
    number_read(text) == Some((true, text))
}

/// What is said of a number that was read.
pub(crate) open spec fn number_view(n: Option<(bool, String)>) -> Option<(bool, Seq<char>)> {
    match n {
        Some((float, text)) => Some((float, text@)),
        None => None,
    }
}

/// Arrays and objects stand inside one another at most `n` deep.
pub open spec fn nests_within(j: JsonSpec, n: nat) -> bool
    decreases n,
{
    match j {
        JsonSpec::Array(s) => n > 0 && forall|i: int|
            0 <= i < s.len() ==> nests_within(#[trigger] s[i], (n - 1) as nat),
        JsonSpec::Object(m) => n > 0 && forall|k: Seq<char>|
            m.contains_key(k) ==> nests_within(#[trigger] m[k], (n - 1) as nat),
        _ => true,
    }
}

/// One level of a `serde_json::Value`.
#[derive(Debug)]
pub(crate) enum ValueNode {
    Null,
    Bool(bool),
    Unsigned(u64),
    Signed(i64),
    Float(JsonFloat),
    Text(String),
    Array(Vec<RawJson>),
    Object(Vec<(String, RawJson)>),
}

/// What one level says, given what the values below it hold.
pub(crate) open spec fn node_content(n: ValueNode) -> JsonSpec {
    match n {
        ValueNode::Null => JsonSpec::Null,
        ValueNode::Bool(b) => JsonSpec::Bool(b),
        ValueNode::Unsigned(n) => JsonSpec::Int(n as int),
        ValueNode::Signed(n) => JsonSpec::Int(n as int),
        ValueNode::Float(f) => JsonSpec::Float(f@),
        ValueNode::Text(s) => JsonSpec::Text(s@),
        ValueNode::Array(v) => JsonSpec::Array(
            v@.map_values(|x: RawJson| value_content(x)),
        ),
        ValueNode::Object(e) => JsonSpec::Object(
            entry_map(e@).map_values(|x: RawJson| value_content(x)),
        ),
    }
}

/// Parses a text with `serde_json::from_str`. The outcome is [`parsed_json`]: the
/// content of the value, or the error's message.
#[verifier::external_body]
fn parse_value(text: &str) -> (r: Result<RawJson, String>)
    ensures
        r matches Ok(v) ==> parsed_json(text@) == read_ok(value_content(v)),
        r matches Err(e) ==> parsed_json(text@) == read_err(e@),
{
    match serde_json::from_str(text) {
        Ok(value) => Ok(value),
        Err(e) => Err(e.to_string()),
    }
}

/// Prints a value with `serde_json::to_string`, which cannot fail on a
/// `serde_json::Value`. The text is [`printed_json`] of the content, it has no
/// white space around it, and parsing it gives the content back unless it nests
/// deeper than the parser goes.
#[verifier::external_body]
fn print_value(v: &RawJson) -> (r: String)
    ensures
        r@ == printed_json(value_content(*v)),
        trim_of(r@) == r@,
        nests_within(value_content(*v), 127) ==> parsed_json(r@) == read_ok(value_content(*v)),
{
    serde_json::to_string(v).unwrap_or_default()
}

/// Prints a value with `serde_json::to_string_pretty`, which cannot fail on a
/// `serde_json::Value`. The text is [`pretty_json`] of the content, it has no
/// white space around it, and parsing it, with or without a line break after it,
/// gives the content back unless it nests deeper than the parser goes.
#[verifier::external_body]
fn print_value_pretty(v: &RawJson) -> (r: String)
    ensures
        r@ == pretty_json(value_content(*v)),
        trim_of(r@) == r@,
        nests_within(value_content(*v), 127) ==> parsed_json(r@ + "\n"@) == read_ok(
            value_content(*v),
        ),
        nests_within(value_content(*v), 127) ==> parsed_json(r@) == read_ok(value_content(*v)),
{
    serde_json::to_string_pretty(v).unwrap_or_default()
}

/// Takes one level of a `serde_json::Value` apart. The keys of an object are
/// distinct, and the level says what the value holds.
#[verifier::external_body]
fn take_apart(v: RawJson) -> (r: ValueNode)
    ensures
        node_content(r) == value_content(v),
        r matches ValueNode::Object(e) ==> entry_keys(e@).no_duplicates(),
{
    match v {
        RawJson::Null => ValueNode::Null,
        RawJson::Bool(b) => ValueNode::Bool(b),
        RawJson::Number(n) => match (n.as_u64(), n.as_i64()) {
            (Some(u), _) => ValueNode::Unsigned(u),
            (None, Some(i)) => ValueNode::Signed(i),
            (None, None) => ValueNode::Float(JsonFloat { text: n.to_string() }),
        },
        RawJson::String(s) => ValueNode::Text(s),
        RawJson::Array(items) => ValueNode::Array(items),
        RawJson::Object(m) => ValueNode::Object(m.into_iter().collect()),
    }
}

/// Puts one level together as a `serde_json::Value`. A floating-point number is
/// read back from its printed form by `serde_json::from_str`, which is exact with
/// the feature `float_roundtrip`.
#[verifier::external_body]
fn put_together(n: ValueNode) -> (r: RawJson)
    requires
        n matches ValueNode::Object(e) ==> entry_keys(e@).no_duplicates(),
    ensures
        value_content(r) == node_content(n),
{
    match n {
        ValueNode::Null => RawJson::Null,
        ValueNode::Bool(b) => RawJson::Bool(b),
        ValueNode::Unsigned(u) => RawJson::from(u),
        ValueNode::Signed(i) => RawJson::from(i),
        ValueNode::Float(f) => serde_json::from_str(&f.text).unwrap_or_default(),
        ValueNode::Text(s) => RawJson::String(s),
        ValueNode::Array(items) => RawJson::Array(items),
        ValueNode::Object(entries) => RawJson::Object(entries.into_iter().collect()),
    }
}

/// Reads a number with `serde_json::from_str`, and asks it `is_f64` and for its text.
/// The outcome is [`number_read`]; `0.7` is a floating-point number that prints so.
#[verifier::external_body]
fn read_number(text: &str) -> (r: Option<(bool, String)>)
    ensures
        number_view(r) == number_read(text@),
        text@ == "0.7"@ ==> number_view(r) == Some((true, "0.7"@)),
{
    let number = serde_json::from_str::<serde_json::Number>(text).ok();
    number.map(|n| (n.is_f64(), n.to_string()))
}

// ---------------------------------------------------------------------------
// From text and back
// ---------------------------------------------------------------------------

/// The library's form of a `serde_json::Value`.
fn json_from_value(v: RawJson) -> (r: Json)
    ensures
        r@ == value_content(v),
    decreases value_content(v),
{
    let ghost content = value_content(v);
    match take_apart(v) {
        ValueNode::Null => Json::Null,
        ValueNode::Bool(b) => Json::Bool(b),
        ValueNode::Unsigned(n) => Json::Unsigned(n),
        ValueNode::Signed(n) => Json::Signed(n),
        ValueNode::Float(f) => Json::Float(f),
        ValueNode::Text(s) => Json::Text(s),
        ValueNode::Array(items) => {
            let ghost all = items@;
            let ghost inner = all.map_values(|x: RawJson| value_content(x));
            let mut r: Vec<Json> = Vec::new();
            for x in it: items
                invariant
                    it.seq() == all,
                    content == JsonSpec::Array(inner),
                    content == value_content(v),
                    inner == all.map_values(|x: RawJson| value_content(x)),
                    r@.len() == it.index(),
                    forall|j: int| 0 <= j < r@.len() ==> (#[trigger] r@[j])@ == inner[j],
            {
                proof {
                    assert(inner[it.index()] == value_content(x));
                    assert(decreases_to!(content => content->Array_0));
                    assert(decreases_to!(inner => inner[it.index()]));
                }
                r.push(json_from_value(x));
            }
            proof {
                lemma_json_list(r@);
                assert(json_list(r@) =~= inner);
            }
            Json::Array(r)
        },
        ValueNode::Object(entries) => {
            let ghost all = entries@;
            let ghost inner = entry_map(all).map_values(|x: RawJson| value_content(x));
            let mut r: StrMap<Json> = StrMap::new();
            proof {
                use_type_invariant(&r);
                lemma_object_empty(r);
                crate::strmap::lemma_entry_map(all);
                assert(r@.dom() =~= Set::empty());
            }
            for x in it: entries
                invariant
                    it.seq() == all,
                    entry_keys(all).no_duplicates(),
                    content == JsonSpec::Object(inner),
                    content == value_content(v),
                    inner == entry_map(all).map_values(|x: RawJson| value_content(x)),
                    entry_map(all).dom().finite(),
                    forall|i: int|
                        0 <= i < all.len() ==> entry_map(all).contains_key((#[trigger] all[i]).0@)
                            && entry_map(all)[all[i].0@] == all[i].1,
                    forall|k: Seq<char>| #[trigger]
                        r@.contains_key(k) <==> entry_keys(all).take(it.index()).contains(k),
                    forall|k: Seq<char>| #[trigger] r@.contains_key(k) ==> r@[k]@ == inner[k],
            {
                let ghost i = it.index();
                proof {
                    assert(all[i] == x);
                    assert(inner[x.0@] == value_content(x.1));
                    assert(decreases_to!(content => content->Object_0));
                    assert(inner.dom() =~= entry_map(all).dom());
                    assert(decreases_to!(inner => inner[x.0@]));
                    assert(entry_keys(all).take(i + 1) =~= entry_keys(all).take(i).push(x.0@));
                    assert(entry_keys(all).take(i + 1)[i] == x.0@);
                    assert forall|k: Seq<char>|
                        entry_keys(all).take(i + 1).contains(k) <==> entry_keys(all).take(
                            i,
                        ).contains(k) || k == x.0@ by {
                        let a = entry_keys(all).take(i);
                        let b = entry_keys(all).take(i + 1);
                        if a.contains(k) {
                            let j = choose|j: int| 0 <= j < a.len() && a[j] == k;
                            assert(b[j] == k);
                        }
                        if b.contains(k) && k != x.0@ {
                            let j = choose|j: int| 0 <= j < b.len() && b[j] == k;
                            assert(a[j] == k);
                        }
                    }
                }
                let (key, value) = x;
                let item = json_from_value(value);
                r.insert(key, item);
            }
            proof {
                use_type_invariant(&r);
                lemma_json_object(r);
                crate::strmap::lemma_entry_map(all);
                assert(entry_keys(all).take(all.len() as int) =~= entry_keys(all));
                assert(r@.dom() =~= entry_map(all).dom());
                assert(json_object(r) =~= inner);
            }
            Json::Object(r)
        },
    }
}

/// Entries that agree one by one stand for the same object.
proof fn lemma_same_entries(a: Seq<(String, RawJson)>, b: Seq<(String, Json)>)
    requires
        a.len() == b.len(),
        forall|i: int|
            0 <= i < a.len() ==> (#[trigger] a[i]).0@ == b[i].0@ && value_content(a[i].1)
                == b[i].1@,
    ensures
        entry_keys(a) == entry_keys(b),
        entry_map(a).map_values(|x: RawJson| value_content(x)) == json_entries(b),
    decreases a.len(),
{
    assert(entry_keys(a) =~= entry_keys(b)) by {
        assert forall|i: int| 0 <= i < a.len() implies entry_keys(a)[i] == entry_keys(b)[i] by {
            assert(a[i].0@ == b[i].0@);
        }
    }
    if a.len() > 0 {
        let x = a.drop_last();
        let y = b.drop_last();
        assert forall|i: int| 0 <= i < x.len() implies (#[trigger] x[i]).0@ == y[i].0@
            && value_content(x[i].1) == y[i].1@ by {
            assert(x[i] == a[i]);
        }
        lemma_same_entries(x, y);
        let last = a.len() - 1;
        assert(a[last].0@ == b[last].0@);
        assert(entry_map(a).map_values(|x: RawJson| value_content(x))
            =~= json_entries(b));
    } else {
        assert(entry_map(a).map_values(|x: RawJson| value_content(x))
            =~= json_entries(b));
    }
}

/// The `serde_json` form of a value.
fn json_to_value(j: &Json) -> (r: RawJson)
    ensures
        value_content(r) == j@,
    decreases j,
{
    match j {
        Json::Null => put_together(ValueNode::Null),
        Json::Bool(b) => put_together(ValueNode::Bool(*b)),
        Json::Unsigned(n) => put_together(ValueNode::Unsigned(*n)),
        Json::Signed(n) => put_together(ValueNode::Signed(*n)),
        Json::Float(f) => put_together(ValueNode::Float(f.copy())),
        Json::Text(s) => put_together(ValueNode::Text(s.clone())),
        Json::Array(items) => {
            let mut out: Vec<RawJson> = Vec::new();
            let mut i: usize = 0;
            while i < items.len()
                invariant
                    i <= items.len(),
                    *j == Json::Array(*items),
                    out@.len() == i,
                    forall|k: int|
                        0 <= k < i ==> value_content(#[trigger] out@[k]) == items@[k]@,
                decreases items.len() - i,
            {
                proof {
                    assert(decreases_to!(*j => j->Array_0));
                    assert(decreases_to!(items@ => items@[i as int]));
                }
                out.push(json_to_value(&items[i]));
                i = i + 1;
            }
            proof {
                lemma_json_list(items@);
                assert(out@.map_values(|x: RawJson| value_content(x)) =~= json_list(
                    items@,
                ));
            }
            put_together(ValueNode::Array(out))
        },
        Json::Object(m) => {
            let mut out: Vec<(String, RawJson)> = Vec::new();
            let mut i: usize = 0;
            while i < m.entries.len()
                invariant
                    i <= m.entries.len(),
                    *j == Json::Object(*m),
                    out@.len() == i,
                    forall|k: int|
                        0 <= k < i ==> (#[trigger] out@[k]).0@ == m.entries@[k].0@
                            && value_content(out@[k].1) == m.entries@[k].1@,
                decreases m.entries.len() - i,
            {
                proof {
                    assert(decreases_to!(*j => j->Object_0));
                    assert(decreases_to!(m => m.entries));
                    assert(decreases_to!(m.entries@ => m.entries@[i as int]));
                    assert(decreases_to!(m.entries@[i as int] => m.entries@[i as int].1));
                }
                let value = json_to_value(&m.entries[i].1);
                out.push((m.entries[i].0.clone(), value));
                i = i + 1;
            }
            proof {
                use_type_invariant(&*m);
                m.lemma_entries();
                lemma_same_entries(out@, m.entries@);
            }
            put_together(ValueNode::Object(out))
        },
    }
}

/// The value under a key of an object.
pub open spec fn member_of(j: JsonSpec, key: Seq<char>) -> Option<JsonSpec> {
    match j {
        JsonSpec::Object(m) => if m.contains_key(key) {
            Some(m[key])
        } else {
            None
        },
        _ => None,
    }
}

/// The text that a value is.
pub open spec fn text_in(j: JsonSpec) -> Option<Seq<char>> {
    match j {
        JsonSpec::Text(s) => Some(s),
        _ => None,
    }
}

/// The text under a key of an object.
pub open spec fn member_text(j: JsonSpec, key: Seq<char>) -> Option<Seq<char>> {
    match member_of(j, key) {
        Some(v) => text_in(v),
        None => None,
    }
}

/// The natural number that a value is.
pub open spec fn nat_in(j: JsonSpec) -> Option<int> {
    match j {
        JsonSpec::Int(n) => if n >= 0 {
            Some(n)
        } else {
            None
        },
        _ => None,
    }
}

/// The value that an optional text stands for in JSON.
pub open spec fn text_or_null(s: Option<Seq<char>>) -> JsonSpec {
    match s {
        Some(t) => JsonSpec::Text(t),
        None => JsonSpec::Null,
    }
}

impl Json {
    /// The value that a text denotes, or why it denotes none.
    pub fn parse(text: &str) -> (r: Result<Json, String>)
        ensures
            r matches Ok(j) ==> parsed_json(text@) == read_ok(j@),
            r matches Err(e) ==> parsed_json(text@) == read_err(e@),
    {
        match parse_value(text) {
            Ok(v) => Ok(json_from_value(v)),
            Err(e) => Err(e),
        }
    }

    /// The compact text of the value.
    pub fn to_text(&self) -> (r: String)
        ensures
            r@ == printed_json(self@),
            trim_of(r@) == r@,
            nests_within(self@, 127) ==> parsed_json(r@) == read_ok(self@),
    {
        let v = json_to_value(self);
        print_value(&v)
    }

    /// The text of the value over several lines.
    pub fn to_text_pretty(&self) -> (r: String)
        ensures
            r@ == pretty_json(self@),
            trim_of(r@) == r@,
            nests_within(self@, 127) ==> parsed_json(r@ + "\n"@) == read_ok(self@),
            nests_within(self@, 127) ==> parsed_json(r@) == read_ok(self@),
    {
        let v = json_to_value(self);
        print_value_pretty(&v)
    }

    /// A copy.
    pub fn copy(&self) -> (r: Json)
        ensures
            r@ == self@,
        decreases self,
    {
        match self {
            Json::Null => Json::Null,
            Json::Bool(b) => Json::Bool(*b),
            Json::Unsigned(n) => Json::Unsigned(*n),
            Json::Signed(n) => Json::Signed(*n),
            Json::Float(f) => Json::Float(f.copy()),
            Json::Text(s) => Json::Text(s.clone()),
            Json::Array(items) => {
                let mut out: Vec<Json> = Vec::new();
                let mut i: usize = 0;
                while i < items.len()
                    invariant
                        i <= items.len(),
                        *self == Json::Array(*items),
                        out@.len() == i,
                        forall|k: int| 0 <= k < i ==> (#[trigger] out@[k])@ == items@[k]@,
                    decreases items.len() - i,
                {
                    proof {
                        assert(decreases_to!(*self => self->Array_0));
                        assert(decreases_to!(items@ => items@[i as int]));
                    }
                    out.push(items[i].copy());
                    i = i + 1;
                }
                proof {
                    lemma_json_list(items@);
                    lemma_json_list(out@);
                    assert(json_list(out@) =~= json_list(items@));
                }
                Json::Array(out)
            },
            Json::Object(m) => {
                let mut out: Vec<(String, Json)> = Vec::new();
                let mut i: usize = 0;
                while i < m.entries.len()
                    invariant
                        i <= m.entries.len(),
                        *self == Json::Object(*m),
                        out@.len() == i,
                        forall|k: int|
                            0 <= k < i ==> (#[trigger] out@[k]).0@ == m.entries@[k].0@
                                && out@[k].1@ == m.entries@[k].1@,
                    decreases m.entries.len() - i,
                {
                    proof {
                        assert(decreases_to!(*self => self->Object_0));
                        assert(decreases_to!(m => m.entries));
                        assert(decreases_to!(m.entries@ => m.entries@[i as int]));
                        assert(decreases_to!(m.entries@[i as int] => m.entries@[i as int].1));
                    }
                    let value = m.entries[i].1.copy();
                    out.push((m.entries[i].0.clone(), value));
                    i = i + 1;
                }
                proof {
                    use_type_invariant(&*m);
                    m.lemma_entries();
                    lemma_copied_entries(out@, m.entries@);
                    assert(entry_keys(out@) =~= entry_keys(m.entries@));
                }
                let copied = StrMap::from_entries(out);
                proof {
                    use_type_invariant(&copied);
                    copied.lemma_entries();
                }
                Json::Object(copied)
            },
        }
    }
}

/// Copied entries stand for the same object.
proof fn lemma_copied_entries(a: Seq<(String, Json)>, b: Seq<(String, Json)>)
    requires
        a.len() == b.len(),
        forall|i: int| 0 <= i < a.len() ==> (#[trigger] a[i]).0@ == b[i].0@ && a[i].1@ == b[i].1@,
    ensures
        entry_keys(a) == entry_keys(b),
        json_entries(a) == json_entries(b),
    decreases a.len(),
{
    assert(entry_keys(a) =~= entry_keys(b)) by {
        assert forall|i: int| 0 <= i < a.len() implies entry_keys(a)[i] == entry_keys(b)[i] by {
            assert(a[i].0@ == b[i].0@);
        }
    }
    if a.len() > 0 {
        let x = a.drop_last();
        let y = b.drop_last();
        assert forall|i: int| 0 <= i < x.len() implies (#[trigger] x[i]).0@ == y[i].0@ && x[i].1@
            == y[i].1@ by {
            assert(x[i] == a[i]);
        }
        lemma_copied_entries(x, y);
        let last = a.len() - 1;
        assert(a[last].0@ == b[last].0@);
    }
}

// ---------------------------------------------------------------------------
// Reading values
// ---------------------------------------------------------------------------

impl Json {
    /// A text value.
    pub fn text(s: &str) -> (r: Json)
        ensures
            r@ == JsonSpec::Text(s@),
    {
        Json::Text(s.to_owned())
    }

    /// The text, or null where there is none.
    pub fn opt_text(s: &Option<String>) -> (r: Json)
        ensures
            r@ == text_or_null(match s {
                Some(t) => Some(t@),
                None => None,
            }),
    {
        match s {
            Some(t) => Json::Text(t.clone()),
            None => Json::Null,
        }
    }

    /// The value under a key, where this is an object that has it.
    pub fn get(&self, key: &str) -> (r: Option<&Json>)
        ensures
            r is Some <==> member_of(self@, key@) is Some,
            r matches Some(v) ==> member_of(self@, key@) == Some(v@),
    {
        match self {
            Json::Object(m) => {
                proof {
                    use_type_invariant(&*m);
                    lemma_json_object(*m);
                }
                m.get(key)
            },
            _ => None,
        }
    }

    /// The text, where this is one.
    pub fn as_str(&self) -> (r: Option<&str>)
        ensures
            r is Some <==> text_in(self@) is Some,
            r matches Some(t) ==> text_in(self@) == Some(t@),
    {
        match self {
            Json::Text(s) => Some(s.as_str()),
            _ => None,
        }
    }

    /// The text under a key, where this is an object that has one there.
    pub fn get_str(&self, key: &str) -> (r: Option<&str>)
        ensures
            r is Some <==> member_text(self@, key@) is Some,
            r matches Some(t) ==> member_text(self@, key@) == Some(t@),
    {
        match self.get(key) {
            Some(v) => v.as_str(),
            None => None,
        }
    }

    /// The items, where this is an array.
    pub fn as_array(&self) -> (r: Option<&Vec<Json>>)
        ensures
            r is Some <==> self@ is Array,
            r matches Some(v) ==> self@ == JsonSpec::Array(json_list(v@)),
    {
        match self {
            Json::Array(v) => Some(v),
            _ => None,
        }
    }

    /// The entries, where this is an object.
    pub fn as_object(&self) -> (r: Option<&StrMap<Json>>)
        ensures
            r is Some <==> self@ is Object,
            r matches Some(m) ==> self@ == JsonSpec::Object(json_object(*m)),
    {
        match self {
            Json::Object(m) => Some(m),
            _ => None,
        }
    }

    /// The number, where this is a natural number that fits.
    pub fn as_u64(&self) -> (r: Option<u64>)
        ensures
            r is Some <==> nat_in(self@) is Some,
            r matches Some(n) ==> nat_in(self@) == Some(n as int),
    {
        match self {
            Json::Unsigned(n) => Some(*n),
            Json::Signed(n) => if *n >= 0 {
                Some(*n as u64)
            } else {
                None
            },
            _ => None,
        }
    }

    /// The number, where this is an integer that fits.
    pub fn as_i64(&self) -> (r: Option<i64>)
        ensures
            r is Some <==> (self@ is Int && i64::MIN <= self@->Int_0 <= i64::MAX),
            r matches Some(n) ==> self@ == JsonSpec::Int(n as int),
    {
        match self {
            Json::Unsigned(n) => if *n <= 0x7fff_ffff_ffff_ffff {
                Some(*n as i64)
            } else {
                None
            },
            Json::Signed(n) => Some(*n),
            _ => None,
        }
    }

    /// The truth value, where this is one.
    pub fn as_bool(&self) -> (r: Option<bool>)
        ensures
            r is Some <==> self@ is Bool,
            r matches Some(b) ==> self@ == JsonSpec::Bool(b),
    {
        match self {
            Json::Bool(b) => Some(*b),
            _ => None,
        }
    }

    /// Whether this is null.
    pub fn is_null(&self) -> (r: bool)
        ensures
            r == (self@ is Null),
    {
        matches!(self, Json::Null)
    }

    /// Whether this is an object.
    pub fn is_object(&self) -> (r: bool)
        ensures
            r == (self@ is Object),
    {
        matches!(self, Json::Object(_))
    }

    /// Whether this is an array.
    pub fn is_array(&self) -> (r: bool)
        ensures
            r == (self@ is Array),
    {
        matches!(self, Json::Array(_))
    }
}

// ---------------------------------------------------------------------------
// Building values
// ---------------------------------------------------------------------------

/// The object with no entry.
pub open spec fn empty_object() -> Map<Seq<char>, JsonSpec> {
    Map::empty()
}

/// An object with no entry.
pub fn new_object() -> (r: StrMap<Json>)
    ensures
        json_object(r) == empty_object(),
        r@ == Map::<Seq<char>, Json>::empty(),
        r.keys() == Seq::<Seq<char>>::empty(),
{
    let r: StrMap<Json> = StrMap::new();
    proof {
        use_type_invariant(&r);
        lemma_object_empty(r);
    }
    r
}

/// Puts a value under a key.
pub fn put(m: &mut StrMap<Json>, key: &str, value: Json)
    ensures
        json_object(*final(m)) == json_object(*old(m)).insert(key@, value@),
{
    proof {
        use_type_invariant(&*m);
    }
    m.insert(key.to_owned(), value);
    proof {
        use_type_invariant(&*m);
        lemma_object_insert(*old(m), *m, key@, value);
    }
}

/// Puts a text under a key.
pub fn put_text(m: &mut StrMap<Json>, key: &str, value: &str)
    ensures
        json_object(*final(m)) == json_object(*old(m)).insert(key@, JsonSpec::Text(value@)),
{
    put(m, key, Json::text(value));
}

/// Takes a key out.
pub fn drop_key(m: &mut StrMap<Json>, key: &str)
    ensures
        json_object(*final(m)) == json_object(*old(m)).remove(key@),
{
    proof {
        use_type_invariant(&*m);
    }
    let _ = m.remove(key);
    proof {
        use_type_invariant(&*m);
        lemma_object_remove(*old(m), *m, key@);
    }
}

/// Appends a value to a list.
pub fn push_json(v: &mut Vec<Json>, value: Json)
    ensures
        json_list(final(v)@) == json_list(old(v)@).push(value@),
{
    v.push(value);
    proof {
        assert(v@.drop_last() =~= old(v)@);
    }
}

/// A copy of an object.
pub fn copy_object(m: &StrMap<Json>) -> (r: StrMap<Json>)
    ensures
        json_object(r) == json_object(*m),
        r.keys() == m.keys(),
        r@.dom() == m@.dom(),
        forall|k: Seq<char>| #[trigger] m@.contains_key(k) ==> r@[k]@ == m@[k]@,
{
    let mut out: Vec<(String, Json)> = Vec::new();
    let mut i: usize = 0;
    proof {
        use_type_invariant(&*m);
        m.lemma_entries();
    }
    while i < m.entries.len()
        invariant
            i <= m.entries.len(),
            out@.len() == i,
            forall|k: int|
                0 <= k < i ==> (#[trigger] out@[k]).0@ == m.entries@[k].0@ && out@[k].1@
                    == m.entries@[k].1@,
        decreases m.entries.len() - i,
    {
        let value = m.entries[i].1.copy();
        out.push((m.entries[i].0.clone(), value));
        i = i + 1;
    }
    proof {
        lemma_copied_entries(out@, m.entries@);
    }
    let r = StrMap::from_entries(out);
    proof {
        use_type_invariant(&r);
        r.lemma_entries();
        lemma_json_object(r);
        lemma_json_object(*m);
        assert(json_object(r) == json_object(*m));
        assert forall|k: Seq<char>| #[trigger] m@.contains_key(k) implies r@[k]@ == m@[k]@ by {
            assert(json_object(*m).contains_key(k));
            assert(json_object(r)[k] == r@[k]@);
        }
    }
    r
}

/// A copy of a list of values.
pub fn copy_list(v: &Vec<Json>) -> (r: Vec<Json>)
    ensures
        json_list(r@) == json_list(v@),
        r@.len() == v@.len(),
{
    let mut out: Vec<Json> = Vec::new();
    let mut i: usize = 0;
    while i < v.len()
        invariant
            i <= v.len(),
            out@.len() == i,
            forall|k: int| 0 <= k < i ==> (#[trigger] out@[k])@ == v@[k]@,
        decreases v.len() - i,
    {
        out.push(v[i].copy());
        i = i + 1;
    }
    proof {
        lemma_json_list(v@);
        lemma_json_list(out@);
        assert(json_list(out@) =~= json_list(v@));
    }
    out
}

// ---------------------------------------------------------------------------
// Records
// ---------------------------------------------------------------------------

/// The two members of a record: under their names in an object, or one after the
/// other in a list. The second is `missing` where an object lacks it.
pub open spec fn record2(
    j: JsonSpec,
    first: Seq<char>,
    second: Seq<char>,
    missing: Option<JsonSpec>,
) -> Option<(JsonSpec, JsonSpec)> {
    match j {
        JsonSpec::Object(m) => if !m.contains_key(first) {
            None
        } else if m.contains_key(second) {
            Some((m[first], m[second]))
        } else {
            match missing {
                Some(x) => Some((m[first], x)),
                None => None,
            }
        },
        JsonSpec::Array(s) => if s.len() == 2 {
            Some((s[0], s[1]))
        } else {
            None
        },
        _ => None,
    }
}

/// The two members of a record, the second where it is there.
pub(crate) fn take_record2<'a>(j: &'a Json, first: &str, second: &str) -> (r: Option<
    (&'a Json, Option<&'a Json>),
>)
    ensures
        match r {
            Some((a, Some(b))) => record2(j@, first@, second@, None) == Some((a@, b@)) && record2(
                j@,
                first@,
                second@,
                Some(JsonSpec::Null),
            ) == Some((a@, b@)),
            Some((a, None)) => record2(j@, first@, second@, None) is None && record2(
                j@,
                first@,
                second@,
                Some(JsonSpec::Null),
            ) == Some((a@, JsonSpec::Null)),
            None => record2(j@, first@, second@, None) is None && record2(
                j@,
                first@,
                second@,
                Some(JsonSpec::Null),
            ) is None,
        },
{
    match j {
        Json::Object(m) => {
            proof {
                use_type_invariant(m);
                lemma_json_object(*m);
            }
            match m.get(first) {
                Some(a) => Some((a, m.get(second))),
                None => None,
            }
        },
        Json::Array(items) => {
            proof {
                lemma_json_list(items@);
            }
            if items.len() == 2 {
                Some((&items[0], Some(&items[1])))
            } else {
                None
            }
        },
        _ => None,
    }
}

// ---------------------------------------------------------------------------
// Floating-point numbers, by their texts
// ---------------------------------------------------------------------------

/// The text that `Display` gives for the floating-point number that `text`
/// denotes in JSON.
pub uninterp spec fn float_display(text: Seq<char>) -> Seq<char>;

/// The text that `Debug` gives for the floating-point number that `text` denotes
/// in JSON.
pub uninterp spec fn float_debug(text: Seq<char>) -> Seq<char>;

/// The printed form of the floating-point sum of the numbers that two texts
/// denote in JSON, where the sum is finite.
pub uninterp spec fn float_sum(a: Seq<char>, b: Seq<char>) -> Option<JsonSpec>;

/// The sum of the numbers that two texts denote, or zero where it is not finite.
pub open spec fn float_total(a: Seq<char>, b: Seq<char>) -> JsonSpec {
    match float_sum(a, b) {
        Some(j) => j,
        None => JsonSpec::Int(0),
    }
}

/// Whether, as floating-point numbers, what `a` denotes in JSON is at most what
/// `b` denotes.
pub uninterp spec fn float_at_most(a: Seq<char>, b: Seq<char>) -> bool;

/// Shows the floating-point number that `serde_json::Number` reads in `text` by
/// its `Display`; a text that is no number is shown as it is.
#[verifier::external_body]
pub(crate) fn show_float(text: &str) -> (r: String)
    ensures
        r@ == float_display(text@),
{
    match serde_json::from_str::<serde_json::Number>(text).ok().and_then(|n| n.as_f64()) {
        Some(x) => x.to_string(),
        None => text.to_string(),
    }
}

/// Shows the floating-point number that `serde_json::Number` reads in `text` by
/// its `Debug`; a text that is no number is shown as it is.
#[verifier::external_body]
pub(crate) fn debug_float(text: &str) -> (r: String)
    ensures
        r@ == float_debug(text@),
{
    match serde_json::from_str::<serde_json::Number>(text).ok().and_then(|n| n.as_f64()) {
        Some(x) => format!("{:?}", x),
        None => text.to_string(),
    }
}

/// What an optional value holds.
pub(crate) open spec fn opt_content(v: Option<RawJson>) -> Option<JsonSpec> {
    match v {
        Some(x) => Some(value_content(x)),
        None => None,
    }
}

/// Adds what `serde_json::Number` reads in two texts as floating-point numbers, by
/// `Add` of the standard library, and hands the sum to
/// `serde_json::Number::from_f64`, which takes none that is not finite. A text that is
/// no number counts as zero.
#[verifier::external_body]
fn sum_floats(a: &str, b: &str) -> (r: Option<RawJson>)
    ensures
        opt_content(r) == float_sum(a@, b@),
{
    let x = serde_json::from_str::<serde_json::Number>(a).ok().and_then(|n| n.as_f64());
    let y = serde_json::from_str::<serde_json::Number>(b).ok().and_then(|n| n.as_f64());
    let sum = std::ops::Add::add(x.unwrap_or_default(), y.unwrap_or_default());
    serde_json::Number::from_f64(sum).map(RawJson::Number)
}

/// Compares what `serde_json::Number` reads in two texts as floating-point
/// numbers, by `PartialOrd` of the standard library. A text that is no number counts
/// as zero.
#[verifier::external_body]
pub(crate) fn number_at_most(a: &str, b: &str) -> (r: bool)
    ensures
        r == float_at_most(a@, b@),
{
    let x = serde_json::from_str::<serde_json::Number>(a).ok().and_then(|n| n.as_f64());
    let y = serde_json::from_str::<serde_json::Number>(b).ok().and_then(|n| n.as_f64());
    x.unwrap_or_default().le(&y.unwrap_or_default())
}

/// The sum of the numbers that two texts denote, as floating-point numbers.
pub(crate) fn add_numbers(a: &str, b: &str) -> (r: Json)
    ensures
        r@ == float_total(a@, b@),
{
    match sum_floats(a, b) {
        Some(v) => json_from_value(v),
        None => Json::Unsigned(0),
    }
}

} // verus!
