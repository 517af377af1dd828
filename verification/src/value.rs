//! Dynamic values for the stores of examples and predictions.

use crate::json::{
    add_numbers, debug_float, float_debug, float_display, float_total, json_list, json_object,
    lemma_json_list, lemma_json_object, new_object, push_json, put, show_float, Json, JsonFloat,
    JsonSpec,
};
use crate::strmap::{entry_keys, StrMap};
use crate::text::{dec, dec_int, dec_signed, join, join_of, push_text, texts};
use crate::unicode::{quote, quoted_of};
use vstd::prelude::*;

verus! {

/// What a value says. The entries of an object are listed in order.
pub enum ValueSpec {
    Text(Seq<char>),
    Integer(int),
    /// A floating-point number, as JSON prints it.
    Float(Seq<char>),
    Bool(bool),
    List(Seq<ValueSpec>),
    Object(Seq<(Seq<char>, ValueSpec)>),
    Null,
}

/// A dynamic value.
#[derive(Debug)]
pub enum Value {
    String(String),
    Integer(i64),
    /// A floating-point number, held as the text that JSON prints for it.
    Float(JsonFloat),
    Bool(bool),
    List(Vec<Value>),
    Object(StrMap<Value>),
    Null,
}

/// What `v` says.
pub open spec fn value_view(v: Value) -> ValueSpec
    decreases v,
{
    match v {
        Value::String(s) => ValueSpec::Text(s@),
        Value::Integer(n) => ValueSpec::Integer(n as int),
        Value::Float(f) => ValueSpec::Float(f@),
        Value::Bool(b) => ValueSpec::Bool(b),
        Value::List(items) => ValueSpec::List(value_list(items@)),
        Value::Object(m) => ValueSpec::Object(value_object(m)),
        Value::Null => ValueSpec::Null,
    }
}

/// What the items of a list say.
pub open spec fn value_list(v: Seq<Value>) -> Seq<ValueSpec>
    decreases v,
{
    if v.len() == 0 {
        Seq::empty()
    } else {
        value_list(v.drop_last()).push(value_view(v.last()))
    }
}

/// What the entries of an object say, in order.
pub closed spec fn value_object(m: StrMap<Value>) -> Seq<(Seq<char>, ValueSpec)>
    decreases m,
{
    value_entries(m.entries@)
}

spec fn value_entries(e: Seq<(String, Value)>) -> Seq<(Seq<char>, ValueSpec)>
    decreases e,
{
    if e.len() == 0 {
        Seq::empty()
    } else {
        value_entries(e.drop_last()).push((e.last().0@, value_view(e.last().1)))
    }
}

impl View for Value {
    type V = ValueSpec;

    open spec fn view(&self) -> ValueSpec {
        value_view(*self)
    }
}

/// A list says what its items say.
pub proof fn lemma_value_list(v: Seq<Value>)
    ensures
        value_list(v).len() == v.len(),
        forall|i: int| 0 <= i < v.len() ==> #[trigger] value_list(v)[i] == v[i]@,
    decreases v.len(),
{
    if v.len() > 0 {
        lemma_value_list(v.drop_last());
    }
}

proof fn lemma_value_entries(e: Seq<(String, Value)>)
    ensures
        value_entries(e).len() == e.len(),
        forall|i: int|
            0 <= i < e.len() ==> (#[trigger] value_entries(e)[i]).0 == e[i].0@ && value_entries(
                e,
            )[i].1 == e[i].1@,
    decreases e.len(),
{
    if e.len() > 0 {
        lemma_value_entries(e.drop_last());
    }
}

/// An object says what its entries say.
pub proof fn lemma_value_object(m: StrMap<Value>)
    requires
        m.wf(),
    ensures
        value_object(m).len() == m.list().len(),
        forall|i: int|
            0 <= i < m.list().len() ==> (#[trigger] value_object(m)[i]).0 == m.list()[i].0@
                && value_object(m)[i].1 == m.list()[i].1@,
{
    m.lemma_entries();
    lemma_value_entries(m.entries@);
}

// ---------------------------------------------------------------------------
// Showing values
// ---------------------------------------------------------------------------

/// The word for a truth value.
pub open spec fn bool_word(b: bool) -> Seq<char> {
    if b {
        "true"@
    } else {
        "false"@
    }
}

/// The form of a value inside a list or an object: its kind and its content.
pub open spec fn debug_of(v: ValueSpec) -> Seq<char>
    decreases v, 0nat,
{
    match v {
        ValueSpec::Text(s) => "String("@ + quoted_of(s) + ")"@,
        ValueSpec::Integer(n) => "Integer("@ + dec_int(n) + ")"@,
        ValueSpec::Float(f) => "Float("@ + float_debug(f) + ")"@,
        ValueSpec::Bool(b) => "Bool("@ + bool_word(b) + ")"@,
        ValueSpec::List(items) => "List("@ + debug_list(items) + ")"@,
        ValueSpec::Object(entries) => "Object("@ + debug_object(entries) + ")"@,
        ValueSpec::Null => "Null"@,
    }
}

/// The forms of the items of a list.
pub open spec fn debug_items(items: Seq<ValueSpec>) -> Seq<Seq<char>>
    decreases items, 0nat,
{
    if items.len() == 0 {
        Seq::empty()
    } else {
        debug_items(items.drop_last()).push(debug_of(items.last()))
    }
}

/// A list in square brackets.
pub open spec fn debug_list(items: Seq<ValueSpec>) -> Seq<char>
    decreases items, 1nat,
{
    "["@ + join_of(debug_items(items), ", "@) + "]"@
}

/// The forms of the entries of an object.
pub open spec fn debug_entries(entries: Seq<(Seq<char>, ValueSpec)>) -> Seq<Seq<char>>
    decreases entries, 0nat,
{
    if entries.len() == 0 {
        Seq::empty()
    } else {
        debug_entries(entries.drop_last()).push(
            quoted_of(entries.last().0) + ": "@ + debug_of(entries.last().1),
        )
    }
}

/// An object in curly brackets.
pub open spec fn debug_object(entries: Seq<(Seq<char>, ValueSpec)>) -> Seq<char>
    decreases entries, 1nat,
{
    "{"@ + join_of(debug_entries(entries), ", "@) + "}"@
}

/// The text that stands for a value in a prompt.
pub open spec fn shown(v: ValueSpec) -> Seq<char> {
    match v {
        ValueSpec::Text(s) => s,
        ValueSpec::Integer(n) => dec_int(n),
        ValueSpec::Float(f) => float_display(f),
        ValueSpec::Bool(b) => bool_word(b),
        ValueSpec::List(items) => debug_list(items),
        ValueSpec::Object(entries) => debug_object(entries),
        ValueSpec::Null => "null"@,
    }
}

/// The word for a truth value.
pub fn bool_text(b: bool) -> (r: String)
    ensures
        r@ == bool_word(b),
{
    if b {
        "true".to_string()
    } else {
        "false".to_string()
    }
}

fn wrapped(kind: &str, inner: &str) -> (r: String)
    ensures
        r@ == kind@ + inner@ + ")"@,
{
    let mut r = kind.to_string();
    r.append(inner);
    r.append(")");
    r
}

/// The form of a value inside a list or an object.
fn debug_text(v: &Value) -> (r: String)
    ensures
        r@ == debug_of(v@),
    decreases v, 0nat,
{
    match v {
        Value::String(s) => wrapped("String(", quote(s.as_str()).as_str()),
        Value::Integer(n) => wrapped("Integer(", dec_signed(*n).as_str()),
        Value::Float(f) => wrapped("Float(", debug_float(f.as_text()).as_str()),
        Value::Bool(b) => wrapped("Bool(", bool_text(*b).as_str()),
        Value::List(items) => {
            proof {
                assert(decreases_to!(*v => v->List_0));
            }
            wrapped("List(", debug_list_text(items).as_str())
        },
        Value::Object(m) => {
            proof {
                assert(decreases_to!(*v => v->Object_0));
            }
            wrapped("Object(", debug_object_text(m).as_str())
        },
        Value::Null => "Null".to_string(),
    }
}

/// A list in square brackets.
fn debug_list_text(items: &Vec<Value>) -> (r: String)
    ensures
        r@ == debug_list(value_list(items@)),
    decreases items, 1nat,
{
    let mut parts: Vec<String> = Vec::new();
    let mut i: usize = 0;
    proof {
        assert(items@.take(0) =~= Seq::<Value>::empty());
        assert(texts(parts@) =~= debug_items(value_list(items@.take(0))));
    }
    while i < items.len()
        invariant
            i <= items.len(),
            texts(parts@) == debug_items(value_list(items@.take(i as int))),
        decreases items.len() - i,
    {
        proof {
            let a = items@.take(i as int);
            let b = items@.take(i + 1);
            assert(b.drop_last() =~= a);
            assert(value_list(b) == value_list(a).push(items@[i as int]@));
            assert(value_list(b).drop_last() =~= value_list(a));
            assert(decreases_to!(items@ => items@[i as int]));
        }
        push_text(&mut parts, debug_text(&items[i]));
        i = i + 1;
    }
    proof {
        assert(items@.take(i as int) =~= items@);
    }
    let mut r = "[".to_string();
    r.append(join(&parts, ", ").as_str());
    r.append("]");
    r
}

/// An object in curly brackets.
fn debug_object_text(m: &StrMap<Value>) -> (r: String)
    ensures
        r@ == debug_object(value_object(*m)),
    decreases m, 1nat,
{
    let mut parts: Vec<String> = Vec::new();
    let mut i: usize = 0;
    proof {
        assert(m.entries@.take(0) =~= Seq::<(String, Value)>::empty());
        assert(texts(parts@) =~= debug_entries(value_entries(m.entries@.take(0))));
    }
    while i < m.entries.len()
        invariant
            i <= m.entries.len(),
            texts(parts@) == debug_entries(value_entries(m.entries@.take(i as int))),
        decreases m.entries.len() - i,
    {
        proof {
            let a = m.entries@.take(i as int);
            let b = m.entries@.take(i + 1);
            assert(b.drop_last() =~= a);
            assert(value_entries(b).drop_last() =~= value_entries(a));
            assert(decreases_to!(m => m.entries));
            assert(decreases_to!(m.entries@ => m.entries@[i as int]));
            assert(decreases_to!(m.entries@[i as int] => m.entries@[i as int].1));
        }
        let mut part = quote(m.entries[i].0.as_str());
        part.append(": ");
        part.append(debug_text(&m.entries[i].1).as_str());
        push_text(&mut parts, part);
        i = i + 1;
    }
    proof {
        assert(m.entries@.take(i as int) =~= m.entries@);
    }
    let mut r = "{".to_string();
    r.append(join(&parts, ", ").as_str());
    r.append("}");
    r
}

// ---------------------------------------------------------------------------
// Values as JSON
// ---------------------------------------------------------------------------

/// What a value says in JSON.
pub open spec fn json_of(v: ValueSpec) -> JsonSpec
    decreases v,
{
    match v {
        ValueSpec::Text(s) => JsonSpec::Text(s),
        ValueSpec::Integer(n) => JsonSpec::Int(n),
        ValueSpec::Float(f) => JsonSpec::Float(f),
        ValueSpec::Bool(b) => JsonSpec::Bool(b),
        ValueSpec::List(items) => JsonSpec::Array(jsons_of(items)),
        ValueSpec::Object(entries) => JsonSpec::Object(json_map_of(entries)),
        ValueSpec::Null => JsonSpec::Null,
    }
}

/// What the items of a list say in JSON.
pub open spec fn jsons_of(items: Seq<ValueSpec>) -> Seq<JsonSpec>
    decreases items,
{
    if items.len() == 0 {
        Seq::empty()
    } else {
        jsons_of(items.drop_last()).push(json_of(items.last()))
    }
}

/// What the entries of an object say in JSON.
pub open spec fn json_map_of(entries: Seq<(Seq<char>, ValueSpec)>) -> Map<Seq<char>, JsonSpec>
    decreases entries,
{
    if entries.len() == 0 {
        Map::empty()
    } else {
        json_map_of(entries.drop_last()).insert(entries.last().0, json_of(entries.last().1))
    }
}

/// The floating-point value of an integer that is too large for `i64`.
pub open spec fn wide_number(n: int) -> ValueSpec {
    match float_total(dec_int(n), "0"@) {
        JsonSpec::Float(f) => ValueSpec::Float(f),
        _ => ValueSpec::Null,
    }
}

/// The keys of listed entries.
pub open spec fn names_of(entries: Seq<(Seq<char>, ValueSpec)>) -> Seq<Seq<char>> {
    entries.map_values(|x: (Seq<char>, ValueSpec)| x.0)
}

/// `v` is what a JSON value reads as: an integer beyond `i64` reads as a
/// floating-point number, and the rest reads as what it is.
pub open spec fn reads_as(v: ValueSpec, j: JsonSpec) -> bool
    decreases v,
{
    match j {
        JsonSpec::Null => v is Null,
        JsonSpec::Bool(b) => v == ValueSpec::Bool(b),
        JsonSpec::Int(n) => if i64::MIN <= n <= i64::MAX {
            v == ValueSpec::Integer(n)
        } else {
            v == wide_number(n)
        },
        JsonSpec::Float(f) => v == ValueSpec::Float(f),
        JsonSpec::Text(s) => v == ValueSpec::Text(s),
        JsonSpec::Array(items) => match v {
            ValueSpec::List(l) => l.len() == items.len() && forall|i: int|
                0 <= i < l.len() ==> reads_as(#[trigger] l[i], items[i]),
            _ => false,
        },
        JsonSpec::Object(m) => match v {
            ValueSpec::Object(e) => {
                &&& forall|i: int|
                    0 <= i < e.len() ==> m.contains_key((#[trigger] e[i]).0) && reads_as(
                        e[i].1,
                        m[e[i].0],
                    )
                &&& forall|k: Seq<char>| #[trigger] m.contains_key(k) ==> names_of(e).contains(k)
                &&& names_of(e).no_duplicates()
            },
            _ => false,
        },
    }
}

/// Something that can stand as a value.
pub trait ToValue: Sized {
    /// What the value says.
    spec fn says(&self) -> ValueSpec;

    /// The value.
    fn to_value(self) -> (r: Value)
        ensures
            r@ == self.says(),
    ;
}

impl ToValue for Value {
    open spec fn says(&self) -> ValueSpec {
        self@
    }

    fn to_value(self) -> (r: Value) {
        self
    }
}

impl ToValue for &str {
    open spec fn says(&self) -> ValueSpec {
        ValueSpec::Text(self@)
    }

    fn to_value(self) -> (r: Value) {
        Value::String(self.to_owned())
    }
}

impl ToValue for String {
    open spec fn says(&self) -> ValueSpec {
        ValueSpec::Text(self@)
    }

    fn to_value(self) -> (r: Value) {
        Value::String(self)
    }
}

impl ToValue for i64 {
    open spec fn says(&self) -> ValueSpec {
        ValueSpec::Integer(*self as int)
    }

    fn to_value(self) -> (r: Value) {
        Value::Integer(self)
    }
}

impl ToValue for i32 {
    open spec fn says(&self) -> ValueSpec {
        ValueSpec::Integer(*self as int)
    }

    fn to_value(self) -> (r: Value) {
        Value::Integer(self as i64)
    }
}

impl ToValue for bool {
    open spec fn says(&self) -> ValueSpec {
        ValueSpec::Bool(*self)
    }

    fn to_value(self) -> (r: Value) {
        Value::Bool(self)
    }
}

impl<T: ToValue> ToValue for Vec<T> {
    open spec fn says(&self) -> ValueSpec {
        ValueSpec::List(self@.map_values(|x: T| x.says()))
    }

    fn to_value(self) -> (r: Value) {
        let ghost all = self@;
        let mut items: Vec<Value> = Vec::new();
        for x in it: self
            invariant
                it.seq() == all,
                items@.len() == it.index(),
                forall|i: int| 0 <= i < items@.len() ==> (#[trigger] items@[i])@ == all[i].says(),
        {
            items.push(x.to_value());
        }
        proof {
            lemma_value_list(items@);
            assert(value_list(items@) =~= all.map_values(|x: T| x.says()));
        }
        Value::List(items)
    }
}

impl Value {
    /// The text, where this is one.
    pub fn as_str(&self) -> (r: Option<&str>)
        ensures
            r is Some <==> self@ is Text,
            r matches Some(s) ==> self@ == ValueSpec::Text(s@),
    {
        match self {
            Value::String(s) => Some(s.as_str()),
            _ => None,
        }
    }

    /// The integer, where this is one.
    pub fn as_i64(&self) -> (r: Option<i64>)
        ensures
            r is Some <==> self@ is Integer,
            r matches Some(n) ==> self@ == ValueSpec::Integer(n as int),
    {
        match self {
            Value::Integer(n) => Some(*n),
            _ => None,
        }
    }

    /// The truth value, where this is one.
    pub fn as_bool(&self) -> (r: Option<bool>)
        ensures
            r is Some <==> self@ is Bool,
            r matches Some(b) ==> self@ == ValueSpec::Bool(b),
    {
        match self {
            Value::Bool(b) => Some(*b),
            _ => None,
        }
    }

    /// The text, where this is one.
    pub fn into_string(self) -> (r: Option<String>)
        ensures
            r is Some <==> self@ is Text,
            r matches Some(s) ==> self@ == ValueSpec::Text(s@),
    {
        match self {
            Value::String(s) => Some(s),
            _ => None,
        }
    }

    /// Whether this is null.
    pub fn is_null(&self) -> (r: bool)
        ensures
            r == (self@ is Null),
    {
        matches!(self, Value::Null)
    }

    /// The text that stands for the value in a prompt.
    pub fn to_text(&self) -> (r: String)
        ensures
            r@ == shown(self@),
    {
        match self {
            Value::String(s) => s.clone(),
            Value::Integer(n) => dec_signed(*n),
            Value::Float(f) => show_float(f.as_text()),
            Value::Bool(b) => bool_text(*b),
            Value::List(items) => debug_list_text(items),
            Value::Object(m) => debug_object_text(m),
            Value::Null => "null".to_string(),
        }
    }

    /// A copy.
    pub fn copy(&self) -> (r: Value)
        ensures
            r@ == self@,
        decreases self,
    {
        match self {
            Value::String(s) => Value::String(s.clone()),
            Value::Integer(n) => Value::Integer(*n),
            Value::Float(f) => Value::Float(f.copy()),
            Value::Bool(b) => Value::Bool(*b),
            Value::List(items) => {
                let mut out: Vec<Value> = Vec::new();
                let mut i: usize = 0;
                while i < items.len()
                    invariant
                        i <= items.len(),
                        *self == Value::List(*items),
                        out@.len() == i,
                        forall|k: int| 0 <= k < i ==> (#[trigger] out@[k])@ == items@[k]@,
                    decreases items.len() - i,
                {
                    proof {
                        assert(decreases_to!(*self => self->List_0));
                        assert(decreases_to!(items@ => items@[i as int]));
                    }
                    out.push(items[i].copy());
                    i = i + 1;
                }
                proof {
                    lemma_value_list(items@);
                    lemma_value_list(out@);
                    assert(value_list(out@) =~= value_list(items@));
                }
                Value::List(out)
            },
            Value::Object(m) => {
                let mut out: Vec<(String, Value)> = Vec::new();
                let mut i: usize = 0;
                while i < m.entries.len()
                    invariant
                        i <= m.entries.len(),
                        *self == Value::Object(*m),
                        out@.len() == i,
                        forall|k: int|
                            0 <= k < i ==> (#[trigger] out@[k]).0@ == m.entries@[k].0@
                                && out@[k].1@ == m.entries@[k].1@,
                    decreases m.entries.len() - i,
                {
                    proof {
                        assert(decreases_to!(*self => self->Object_0));
                        assert(decreases_to!(m => m.entries));
                        assert(decreases_to!(m.entries@ => m.entries@[i as int]));
                        assert(decreases_to!(m.entries@[i as int] => m.entries@[i as int].1));
                    }
                    let value = m.entries[i].1.copy();
                    out.push((m.entries[i].0.clone(), value));
                    i = i + 1;
                }
                proof {
                    use_type_invariant(&*m);
                    m.lemma_entries();
                    lemma_value_entries(out@);
                    lemma_value_entries(m.entries@);
                    assert(value_entries(out@) =~= value_entries(m.entries@));
                    assert(entry_keys(out@) =~= entry_keys(m.entries@));
                }
                let copied = StrMap::from_entries(out);
                proof {
                    use_type_invariant(&copied);
                    copied.lemma_entries();
                }
                Value::Object(copied)
            },
            Value::Null => Value::Null,
        }
    }

    /// The value in JSON.
    pub fn to_json(&self) -> (r: Json)
        ensures
            r@ == json_of(self@),
            held_value(self@),
        decreases self,
    {
        match self {
            Value::String(s) => Json::Text(s.clone()),
            Value::Integer(n) => Json::Signed(*n),
            Value::Float(f) => Json::Float(f.copy()),
            Value::Bool(b) => Json::Bool(*b),
            Value::List(items) => {
                let mut out: Vec<Json> = Vec::new();
                let mut i: usize = 0;
                proof {
                    assert(items@.take(0) =~= Seq::<Value>::empty());
                    assert(json_list(out@) =~= jsons_of(value_list(items@.take(0))));
                }
                while i < items.len()
                    invariant
                        i <= items.len(),
                        *self == Value::List(*items),
                        json_list(out@) == jsons_of(value_list(items@.take(i as int))),
                        forall|k: int| 0 <= k < i ==> held_value((#[trigger] items@[k])@),
                    decreases items.len() - i,
                {
                    proof {
                        assert(decreases_to!(*self => self->List_0));
                        assert(decreases_to!(items@ => items@[i as int]));
                        let a = items@.take(i as int);
                        let b = items@.take(i + 1);
                        assert(b.drop_last() =~= a);
                        assert(value_list(b).drop_last() =~= value_list(a));
                    }
                    push_json(&mut out, items[i].to_json());
                    i = i + 1;
                }
                proof {
                    assert(items@.take(i as int) =~= items@);
                    lemma_value_list(items@);
                    let l = value_list(items@);
                    assert forall|k: int| 0 <= k < l.len() implies held_value(#[trigger] l[k]) by {
                        assert(l[k] == items@[k]@);
                    }
                }
                Json::Array(out)
            },
            Value::Object(m) => {
                let mut out = new_object();
                let mut i: usize = 0;
                proof {
                    assert(m.entries@.take(0) =~= Seq::<(String, Value)>::empty());
                    assert(json_object(out) =~= json_map_of(value_entries(m.entries@.take(0))));
                }
                while i < m.entries.len()
                    invariant
                        i <= m.entries.len(),
                        *self == Value::Object(*m),
                        json_object(out) == json_map_of(value_entries(m.entries@.take(i as int))),
                        forall|k: int| 0 <= k < i ==> held_value((#[trigger] m.entries@[k]).1@),
                    decreases m.entries.len() - i,
                {
                    proof {
                        assert(decreases_to!(*self => self->Object_0));
                        assert(decreases_to!(m => m.entries));
                        assert(decreases_to!(m.entries@ => m.entries@[i as int]));
                        assert(decreases_to!(m.entries@[i as int] => m.entries@[i as int].1));
                        let a = m.entries@.take(i as int);
                        let b = m.entries@.take(i + 1);
                        assert(b.drop_last() =~= a);
                        assert(value_entries(b).drop_last() =~= value_entries(a));
                    }
                    let value = m.entries[i].1.to_json();
                    put(&mut out, m.entries[i].0.as_str(), value);
                    i = i + 1;
                }
                proof {
                    assert(m.entries@.take(i as int) =~= m.entries@);
                    use_type_invariant(m);
                    m.lemma_shape();
                    m.lemma_entries();
                    lemma_value_object(*m);
                    let e = value_object(*m);
                    assert(names_of(e) =~= m.keys());
                    assert forall|k: int| 0 <= k < e.len() implies held_value(
                        (#[trigger] e[k]).1,
                    ) by {
                        assert(e[k].1 == m.entries@[k].1@);
                    }
                }
                Json::Object(out)
            },
            Value::Null => Json::Null,
        }
    }

    /// The value that a JSON value reads as.
    pub fn from_json(j: &Json) -> (r: Value)
        ensures
            reads_as(r@, j@),
        decreases j,
    {
        match j {
            Json::Null => Value::Null,
            Json::Bool(b) => Value::Bool(*b),
            Json::Unsigned(n) => if *n <= 0x7fff_ffff_ffff_ffff {
                Value::Integer(*n as i64)
            } else {
                match add_numbers(dec(*n).as_str(), "0") {
                    Json::Float(f) => Value::Float(f),
                    _ => Value::Null,
                }
            },
            Json::Signed(n) => Value::Integer(*n),
            Json::Float(f) => Value::Float(f.copy()),
            Json::Text(s) => Value::String(s.clone()),
            Json::Array(items) => {
                let mut out: Vec<Value> = Vec::new();
                let mut i: usize = 0;
                while i < items.len()
                    invariant
                        i <= items.len(),
                        *j == Json::Array(*items),
                        out@.len() == i,
                        forall|k: int|
                            0 <= k < i ==> reads_as((#[trigger] out@[k])@, items@[k]@),
                    decreases items.len() - i,
                {
                    proof {
                        assert(decreases_to!(*j => j->Array_0));
                        assert(decreases_to!(items@ => items@[i as int]));
                    }
                    out.push(Value::from_json(&items[i]));
                    i = i + 1;
                }
                proof {
                    lemma_value_list(out@);
                    lemma_json_list(items@);
                    assert forall|k: int| 0 <= k < out@.len() implies reads_as(
                        #[trigger] value_list(out@)[k],
                        json_list(items@)[k],
                    ) by {
                        assert(value_list(out@)[k] == out@[k]@);
                    }
                }
                let r = Value::List(out);
                proof {
                    assert(j@ == JsonSpec::Array(json_list(items@)));
                    assert(r@ == ValueSpec::List(value_list(out@)));
                    assert(reads_as(r@, j@));
                }
                r
            },
            Json::Object(m) => {
                let mut out: Vec<(String, Value)> = Vec::new();
                let mut i: usize = 0;
                while i < m.entries.len()
                    invariant
                        i <= m.entries.len(),
                        *j == Json::Object(*m),
                        out@.len() == i,
                        forall|k: int|
                            0 <= k < i ==> (#[trigger] out@[k]).0@ == m.entries@[k].0@ && reads_as(
                                out@[k].1@,
                                m.entries@[k].1@,
                            ),
                    decreases m.entries.len() - i,
                {
                    proof {
                        assert(decreases_to!(*j => j->Object_0));
                        assert(decreases_to!(m => m.entries));
                        assert(decreases_to!(m.entries@ => m.entries@[i as int]));
                        assert(decreases_to!(m.entries@[i as int] => m.entries@[i as int].1));
                    }
                    let value = Value::from_json(&m.entries[i].1);
                    out.push((m.entries[i].0.clone(), value));
                    i = i + 1;
                }
                proof {
                    use_type_invariant(&*m);
                    m.lemma_entries();
                    m.lemma_shape();
                    lemma_json_object(*m);
                    lemma_value_entries(out@);
                    assert(entry_keys(out@) =~= entry_keys(m.entries@)) by {
                        assert forall|k: int| 0 <= k < out@.len() implies entry_keys(out@)[k]
                            == entry_keys(m.entries@)[k] by {
                            assert(out@[k].0@ == m.entries@[k].0@);
                        }
                    }
                }
                let map = StrMap::from_entries(out);
                proof {
                    use_type_invariant(&map);
                    map.lemma_entries();
                    let e = value_object(map);
                    let jm = json_object(*m);
                    assert forall|k: int| 0 <= k < e.len() implies jm.contains_key(
                        (#[trigger] e[k]).0,
                    ) && reads_as(e[k].1, jm[e[k].0]) by {
                        assert(out@[k].0@ == m.entries@[k].0@);
                        assert(m.list()[k] == m.entries@[k]);
                        assert(m@.contains_key(m.keys()[k]));
                    }
                    assert(names_of(e) =~= m.keys());
                }
                let r = Value::Object(map);
                proof {
                    assert(j@ == JsonSpec::Object(json_object(*m)));
                    assert(r@ == ValueSpec::Object(value_object(map)));
                    assert(reads_as(r@, j@));
                }
                r
            },
        }
    }
}

// ---------------------------------------------------------------------------
// Fields in order
// ---------------------------------------------------------------------------

/// The fields with one set: a field that is there keeps its place.
pub open spec fn set_pair(
    pairs: Seq<(Seq<char>, ValueSpec)>,
    name: Seq<char>,
    v: ValueSpec,
) -> Seq<(Seq<char>, ValueSpec)> {
    if names_of(pairs).contains(name) {
        pairs.update(names_of(pairs).index_of(name), (name, v))
    } else {
        pairs.push((name, v))
    }
}

/// The value of a field.
pub open spec fn pair_value(pairs: Seq<(Seq<char>, ValueSpec)>, name: Seq<char>) -> Option<
    ValueSpec,
> {
    if names_of(pairs).contains(name) {
        Some(pairs[names_of(pairs).index_of(name)].1)
    } else {
        None
    }
}

/// The fields of a map stand under its keys, in order.
pub proof fn lemma_object_pairs(m: StrMap<Value>)
    requires
        m.wf(),
    ensures
        names_of(value_object(m)) == m.keys(),
        m.keys().no_duplicates(),
        forall|k: Seq<char>| #[trigger] m@.contains_key(k) <==> m.keys().contains(k),
        forall|i: int|
            0 <= i < value_object(m).len() ==> (#[trigger] value_object(m)[i]).1
                == m@[m.keys()[i]]@,
        forall|k: Seq<char>|
            #![trigger m@[k]]
            #![trigger pair_value(value_object(m), k)]
            pair_value(value_object(m), k) == if m@.contains_key(k) {
                Some(m@[k]@)
            } else {
                None::<ValueSpec>
            },
{
    m.lemma_shape();
    lemma_value_object(m);
    assert(names_of(value_object(m)) =~= m.keys());
    assert forall|i: int| 0 <= i < value_object(m).len() implies (#[trigger] value_object(m)[i]).1
        == m@[m.keys()[i]]@ by {
        assert(m.list()[i].1 == m@[m.keys()[i]]);
    }
}

/// A map without any field.
pub fn no_fields() -> (r: StrMap<Value>)
    ensures
        value_object(r) == Seq::<(Seq<char>, ValueSpec)>::empty(),
{
    let r = StrMap::new();
    proof {
        use_type_invariant(&r);
        r.lemma_shape();
        lemma_value_object(r);
        assert(value_object(r) =~= Seq::<(Seq<char>, ValueSpec)>::empty());
    }
    r
}

/// Sets a field. One that is there keeps its place.
pub fn put_value(m: &mut StrMap<Value>, name: String, v: Value)
    ensures
        value_object(*final(m)) == set_pair(value_object(*old(m)), name@, v@),
{
    let ghost before = *m;
    let ghost n = name@;
    proof {
        use_type_invariant(&*m);
        lemma_object_pairs(before);
        lemma_value_object(before);
    }
    m.insert(name, v);
    proof {
        use_type_invariant(&*m);
        lemma_object_pairs(*m);
        lemma_value_object(*m);
        m.lemma_shape();
        before.lemma_shape();
        let a = value_object(*m);
        let b = set_pair(value_object(before), n, v@);
        assert(a.len() == b.len());
        assert forall|i: int| 0 <= i < a.len() implies a[i] == b[i] by {
            assert(a[i].0 == m.keys()[i]);
            assert(a[i].1 == m@[m.keys()[i]]@);
            if i < value_object(before).len() {
                assert(value_object(before)[i].0 == before.keys()[i]);
                assert(value_object(before)[i].1 == before@[before.keys()[i]]@);
                assert(m.keys()[i] == before.keys()[i]);
            }
        }
        assert(a =~= b);
    }
}

// ---------------------------------------------------------------------------
// Laws
// ---------------------------------------------------------------------------

/// No object stands in a value.
pub open spec fn plain_value(v: ValueSpec) -> bool
    decreases v,
{
    match v {
        ValueSpec::Object(_) => false,
        ValueSpec::List(items) => forall|i: int|
            0 <= i < items.len() ==> plain_value(#[trigger] items[i]),
        _ => true,
    }
}

/// A value can be held: its integers are in range, and its objects have each key once.
pub open spec fn held_value(v: ValueSpec) -> bool
    decreases v,
{
    match v {
        ValueSpec::Integer(n) => i64::MIN <= n <= i64::MAX,
        ValueSpec::List(items) => forall|i: int|
            0 <= i < items.len() ==> held_value(#[trigger] items[i]),
        ValueSpec::Object(entries) => names_of(entries).no_duplicates() && forall|i: int|
            0 <= i < entries.len() ==> held_value((#[trigger] entries[i]).1),
        _ => true,
    }
}

/// Two values are the same but for the order of the entries of objects.
pub open spec fn same_value(v: ValueSpec, w: ValueSpec) -> bool {
    json_of(v) == json_of(w)
}

pub proof fn lemma_jsons_of(items: Seq<ValueSpec>)
    ensures
        jsons_of(items).len() == items.len(),
        forall|i: int|
            0 <= i < items.len() ==> #[trigger] jsons_of(items)[i] == json_of(items[i]),
    decreases items.len(),
{
    if items.len() > 0 {
        lemma_jsons_of(items.drop_last());
    }
}

proof fn lemma_json_map_of(entries: Seq<(Seq<char>, ValueSpec)>)
    requires
        names_of(entries).no_duplicates(),
    ensures
        forall|i: int|
            #![trigger entries[i]]
            0 <= i < entries.len() ==> json_map_of(entries).contains_key(entries[i].0)
                && json_map_of(entries)[entries[i].0] == json_of(entries[i].1),
        forall|k: Seq<char>|
            #[trigger] json_map_of(entries).contains_key(k) ==> names_of(entries).contains(k),
    decreases entries.len(),
{
    if entries.len() > 0 {
        let front = entries.drop_last();
        let n = front.len() as int;
        assert(names_of(front) =~= names_of(entries).drop_last());
        lemma_json_map_of(front);
        assert forall|i: int| #![trigger entries[i]] 0 <= i < entries.len() implies json_map_of(
            entries,
        ).contains_key(entries[i].0) && json_map_of(entries)[entries[i].0] == json_of(
            entries[i].1,
        ) by {
            if i < n {
                assert(front[i] == entries[i]);
                assert(names_of(entries)[i] != names_of(entries)[n]);
            }
        }
        assert forall|k: Seq<char>| #[trigger]
            json_map_of(entries).contains_key(k) implies names_of(entries).contains(k) by {
            if k == entries.last().0 {
                assert(names_of(entries)[n] == k);
            } else {
                assert(json_map_of(front).contains_key(k));
                let i = choose|i: int| 0 <= i < names_of(front).len() && names_of(front)[i] == k;
                assert(names_of(entries)[i] == k);
            }
        }
    }
}

/// A value is read back from JSON as what was written, but for the order of the
/// entries of objects, which is not written.
pub proof fn law_value_is_read_back(v: ValueSpec, w: ValueSpec)
    requires
        held_value(w),
        reads_as(v, json_of(w)),
    ensures
        same_value(v, w),
        plain_value(w) ==> v == w,
    decreases w,
{
    match w {
        ValueSpec::List(items) => {
            lemma_jsons_of(items);
            let got = v->List_0;
            lemma_jsons_of(got);
            assert forall|i: int| 0 <= i < items.len() implies json_of(#[trigger] got[i])
                == json_of(items[i]) && (plain_value(items[i]) ==> got[i] == items[i]) by {
                assert(held_value(items[i]));
                assert(reads_as(got[i], jsons_of(items)[i]));
                law_value_is_read_back(got[i], items[i]);
            }
            assert(jsons_of(got) =~= jsons_of(items));
            if plain_value(w) {
                assert forall|i: int| 0 <= i < items.len() implies got[i] == items[i] by {
                    assert(plain_value(items[i]));
                }
                assert(got =~= items);
            }
        },
        ValueSpec::Object(entries) => {
            let got = v->Object_0;
            let m = json_map_of(entries);
            lemma_json_map_of(entries);
            lemma_json_map_of(got);
            let n = json_map_of(got);
            assert forall|i: int| #![trigger got[i]] 0 <= i < got.len() implies m.contains_key(
                got[i].0,
            ) && m[got[i].0] == json_of(got[i].1) by {
                assert(m.contains_key(got[i].0) && reads_as(got[i].1, m[got[i].0]));
                let j = choose|j: int|
                    0 <= j < names_of(entries).len() && names_of(entries)[j] == got[i].0;
                assert(entries[j].0 == got[i].0);
                assert(held_value(entries[j].1));
                law_value_is_read_back(got[i].1, entries[j].1);
            }
            assert forall|k: Seq<char>| m.contains_key(k) <==> n.contains_key(k) by {
                if m.contains_key(k) {
                    let i = choose|i: int| 0 <= i < names_of(got).len() && names_of(got)[i] == k;
                    assert(got[i].0 == k);
                }
                if n.contains_key(k) {
                    let i = choose|i: int| 0 <= i < names_of(got).len() && names_of(got)[i] == k;
                    assert(got[i].0 == k);
                }
            }
            assert forall|k: Seq<char>| m.contains_key(k) implies m[k] == n[k] by {
                let i = choose|i: int| 0 <= i < names_of(got).len() && names_of(got)[i] == k;
                assert(got[i].0 == k);
            }
            assert(m =~= n);
        },
        _ => {},
    }
}

} // verus!
