//! Signatures: the named inputs and outputs of a task, in order.

use crate::error::{DspyError, Result};
use crate::json::{
    empty_object, json_list, lemma_json_list, member_of, member_text, new_object, push_json, put,
    put_text, text_or_null, Json, JsonSpec,
};
use crate::text::{
    chars_of, find_text, join, join_of, push_text, same, slice_text, split, split_of, texts, trim,
    trim_of,
};
use indexmap::IndexMap;
use vstd::prelude::*;

verus! {

// ---------------------------------------------------------------------------
// Fields
// ---------------------------------------------------------------------------

/// Whether a field is given or produced.
#[derive(Debug, Clone, Copy, PartialEq, Eq, Structural)]
pub enum FieldType {
    Input,
    Output,
}

/// What a field says.
pub struct FieldSpec {
    pub name: Seq<char>,
    pub field_type: FieldType,
    pub description: Option<Seq<char>>,
    pub prefix: Option<Seq<char>>,
    pub format: Option<Seq<char>>,
}

/// A field of a signature.
#[derive(Debug)]
pub struct FieldDef {
    pub name: String,
    pub field_type: FieldType,
    pub description: Option<String>,
    pub prefix: Option<String>,
    pub format: Option<String>,
}

/// What an optional text says.
pub open spec fn opt_view(s: Option<String>) -> Option<Seq<char>> {
    match s {
        Some(t) => Some(t@),
        None => None,
    }
}

/// A copy of an optional text.
pub fn copy_opt(s: &Option<String>) -> (r: Option<String>)
    ensures
        opt_view(r) == opt_view(*s),
{
    match s {
        Some(t) => Some(t.clone()),
        None => None,
    }
}

impl View for FieldDef {
    type V = FieldSpec;

    open spec fn view(&self) -> FieldSpec {
        FieldSpec {
            name: self.name@,
            field_type: self.field_type,
            description: opt_view(self.description),
            prefix: opt_view(self.prefix),
            format: opt_view(self.format),
        }
    }
}

impl FieldSpec {
    /// A field with a name and nothing else.
    pub open spec fn bare(name: Seq<char>, field_type: FieldType) -> FieldSpec {
        FieldSpec { name, field_type, description: None, prefix: None, format: None }
    }

    pub open spec fn desc(self, text: Seq<char>) -> FieldSpec {
        FieldSpec { description: Some(text), ..self }
    }

    pub open spec fn pre(self, text: Seq<char>) -> FieldSpec {
        FieldSpec { prefix: Some(text), ..self }
    }
}

impl Clone for FieldDef {
    fn clone(&self) -> (r: Self)
        ensures
            r@ == self@,
    {
        FieldDef {
            name: self.name.clone(),
            field_type: self.field_type,
            description: copy_opt(&self.description),
            prefix: copy_opt(&self.prefix),
            format: copy_opt(&self.format),
        }
    }
}

impl FieldDef {
    /// The field with a description.
    pub fn with_desc(self, desc: &str) -> (r: Self)
        ensures
            r@ == self@.desc(desc@),
    {
        FieldDef { description: Some(desc.to_owned()), ..self }
    }

    /// The field with a prefix.
    pub fn with_prefix(self, prefix: &str) -> (r: Self)
        ensures
            r@ == self@.pre(prefix@),
    {
        FieldDef { prefix: Some(prefix.to_owned()), ..self }
    }

    /// The field with a format.
    pub fn with_format(self, format: &str) -> (r: Self)
        ensures
            r@ == (FieldSpec { format: Some(format@), ..self@ }),
    {
        FieldDef { format: Some(format.to_owned()), ..self }
    }
}

/// An input field with a name and nothing else.
pub fn input_field(name: &str) -> (r: FieldDef)
    ensures
        r@ == FieldSpec::bare(name@, FieldType::Input),
{
    FieldDef {
        name: name.to_owned(),
        field_type: FieldType::Input,
        description: None,
        prefix: None,
        format: None,
    }
}

/// An output field with a name and nothing else.
pub fn output_field(name: &str) -> (r: FieldDef)
    ensures
        r@ == FieldSpec::bare(name@, FieldType::Output),
{
    FieldDef {
        name: name.to_owned(),
        field_type: FieldType::Output,
        description: None,
        prefix: None,
        format: None,
    }
}

/// Changes to a field: what is given replaces what is there.
#[derive(Debug)]
pub struct FieldUpdate {
    pub description: Option<String>,
    pub prefix: Option<String>,
    pub format: Option<String>,
}

impl Default for FieldUpdate {
    fn default() -> (r: Self)
        ensures
            r.description is None,
            r.prefix is None,
            r.format is None,
    {
        FieldUpdate { description: None, prefix: None, format: None }
    }
}

// ---------------------------------------------------------------------------
// The map of fields
// ---------------------------------------------------------------------------

/// `indexmap::IndexMap`, a map that keeps the order of its entries.
#[verifier::external_type_specification]
#[verifier::external_body]
#[verifier::reject_recursive_types(K)]
#[verifier::reject_recursive_types(V)]
#[verifier::reject_recursive_types(S)]
pub struct ExIndexMap<K, V, S>(indexmap::IndexMap<K, V, S>);

/// The entries of a map of fields, in order.
pub uninterp spec fn field_entries(m: IndexMap<String, FieldDef>) -> Seq<(Seq<char>, FieldDef)>;

/// Where a key stands in a list of entries.
pub open spec fn key_index(e: Seq<(Seq<char>, FieldDef)>, key: Seq<char>) -> Option<int>
    decreases e.len(),
{
    if e.len() == 0 {
        None
    } else if e.last().0 == key {
        Some(e.len() - 1)
    } else {
        key_index(e.drop_last(), key)
    }
}

/// `IndexMap::new` gives a map without entries.
#[verifier::external_body]
fn fields_new() -> (r: IndexMap<String, FieldDef>)
    ensures
        field_entries(r) == Seq::<(Seq<char>, FieldDef)>::empty(),
{
    IndexMap::new()
}

/// `IndexMap::insert` replaces the value of a key that is there, which keeps its
/// place, and appends an entry for one that is not.
#[verifier::external_body]
fn fields_insert(m: &mut IndexMap<String, FieldDef>, key: String, value: FieldDef)
    ensures
        field_entries(*final(m)) == match key_index(field_entries(*old(m)), key@) {
            Some(i) => field_entries(*old(m)).update(i, (key@, value)),
            None => field_entries(*old(m)).push((key@, value)),
        },
{
    m.insert(key, value);
}

/// `IndexMap::get` gives the value of a key that is there.
#[verifier::external_body]
fn fields_get<'a>(m: &'a IndexMap<String, FieldDef>, key: &str) -> (r: Option<&'a FieldDef>)
    ensures
        match key_index(field_entries(*m), key@) {
            Some(i) => r == Some(&field_entries(*m)[i].1),
            None => r is None,
        },
{
    m.get(key)
}

/// `IndexMap::len` counts the entries.
#[verifier::external_body]
fn fields_len(m: &IndexMap<String, FieldDef>) -> (r: usize)
    ensures
        r == field_entries(*m).len(),
{
    m.len()
}

/// `IndexMap::get_index` gives the key and the value at a position.
#[verifier::external_body]
fn fields_at<'a>(m: &'a IndexMap<String, FieldDef>, i: usize) -> (r: Option<
    (&'a String, &'a FieldDef),
>)
    ensures
        r is Some <==> i < field_entries(*m).len(),
        r matches Some(e) ==> e.0@ == field_entries(*m)[i as int].0 && *e.1 == field_entries(
            *m,
        )[i as int].1,
{
    m.get_index(i)
}

/// `IndexMap::shift_remove` takes the entry of a key out and keeps the order of
/// the others.
#[verifier::external_body]
fn fields_remove(m: &mut IndexMap<String, FieldDef>, key: &str)
    ensures
        field_entries(*final(m)) == match key_index(field_entries(*old(m)), key@) {
            Some(i) => field_entries(*old(m)).remove(i),
            None => field_entries(*old(m)),
        },
{
    m.shift_remove(key);
}

// ---------------------------------------------------------------------------
// What signatures say
// ---------------------------------------------------------------------------

/// What a signature says: its instructions and its fields in order.
pub struct SigSpec {
    pub instructions: Seq<char>,
    pub fields: Seq<FieldSpec>,
}

/// Where the field of a name stands.
pub open spec fn name_index(fields: Seq<FieldSpec>, name: Seq<char>) -> Option<int>
    decreases fields.len(),
{
    if fields.len() == 0 {
        None
    } else if fields.last().name == name {
        Some(fields.len() - 1)
    } else {
        name_index(fields.drop_last(), name)
    }
}

/// The fields with `f` put in: in place of the field of its name, or last.
pub open spec fn upsert(fields: Seq<FieldSpec>, f: FieldSpec) -> Seq<FieldSpec> {
    match name_index(fields, f.name) {
        Some(i) => fields.update(i, f),
        None => fields.push(f),
    }
}

/// The fields with those of `more` put in one after the other.
pub open spec fn upsert_all(fields: Seq<FieldSpec>, more: Seq<FieldSpec>) -> Seq<FieldSpec>
    decreases more.len(),
{
    if more.len() == 0 {
        fields
    } else {
        upsert(upsert_all(fields, more.drop_last()), more.last())
    }
}

/// The fields of a type, in order.
pub open spec fn of_type(fields: Seq<FieldSpec>, t: FieldType) -> Seq<FieldSpec>
    decreases fields.len(),
{
    if fields.len() == 0 {
        Seq::empty()
    } else if fields.last().field_type == t {
        of_type(fields.drop_last(), t).push(fields.last())
    } else {
        of_type(fields.drop_last(), t)
    }
}

/// The names of fields.
pub open spec fn names(fields: Seq<FieldSpec>) -> Seq<Seq<char>> {
    fields.map_values(|f: FieldSpec| f.name)
}

/// The fields without the one of a name.
pub open spec fn without(fields: Seq<FieldSpec>, name: Seq<char>) -> Seq<FieldSpec> {
    match name_index(fields, name) {
        Some(i) => fields.remove(i),
        None => fields,
    }
}

impl SigSpec {
    /// The input fields in order.
    pub open spec fn inputs(self) -> Seq<FieldSpec> {
        of_type(self.fields, FieldType::Input)
    }

    /// The output fields in order.
    pub open spec fn outputs(self) -> Seq<FieldSpec> {
        of_type(self.fields, FieldType::Output)
    }

    /// The signature with a field at the start of its group: an input before all
    /// fields, an output between the inputs and the outputs.
    pub open spec fn prepend(self, f: FieldSpec) -> SigSpec {
        SigSpec {
            instructions: self.instructions,
            fields: match f.field_type {
                FieldType::Input => upsert_all(seq![f], self.fields),
                FieldType::Output => upsert_all(upsert(self.inputs(), f), self.outputs()),
            },
        }
    }

    /// The signature with a field last.
    pub open spec fn append(self, f: FieldSpec) -> SigSpec {
        SigSpec { fields: upsert(self.fields, f), ..self }
    }

    /// The signature with a field before the one at a position, or last.
    pub open spec fn insert(self, index: int, f: FieldSpec) -> SigSpec {
        SigSpec {
            fields: if 0 <= index < self.fields.len() {
                upsert_all(upsert(self.fields.take(index), f), self.fields.skip(index))
            } else {
                upsert(self.fields, f)
            },
            ..self
        }
    }

    /// The signature without a field.
    pub open spec fn delete(self, name: Seq<char>) -> SigSpec {
        SigSpec { fields: without(self.fields, name), ..self }
    }
}

/// No two fields have the same name.
pub open spec fn distinct(fields: Seq<FieldSpec>) -> bool {
    names(fields).no_duplicates()
}

/// A name is found exactly where it stands.
pub proof fn lemma_name_index(fields: Seq<FieldSpec>, name: Seq<char>)
    ensures
        match name_index(fields, name) {
            Some(i) => 0 <= i < fields.len() && fields[i].name == name,
            None => !names(fields).contains(name) && forall|i: int|
                0 <= i < fields.len() ==> (#[trigger] fields[i]).name != name,
        },
    decreases fields.len(),
{
    if fields.len() > 0 {
        lemma_name_index(fields.drop_last(), name);
        if name_index(fields, name) is None {
            assert forall|i: int| 0 <= i < fields.len() implies (#[trigger] fields[i]).name
                != name by {
                if i < fields.len() - 1 {
                    assert(fields.drop_last()[i] == fields[i]);
                }
            }
            if names(fields).contains(name) {
                let i = choose|i: int| 0 <= i < names(fields).len() && names(fields)[i] == name;
                assert(fields[i].name == name);
            }
        }
    }
}

/// Putting a field in keeps the names distinct.
pub proof fn lemma_upsert_distinct(fields: Seq<FieldSpec>, f: FieldSpec)
    requires
        distinct(fields),
    ensures
        distinct(upsert(fields, f)),
{
    lemma_name_index(fields, f.name);
    let out = upsert(fields, f);
    match name_index(fields, f.name) {
        Some(i) => {
            assert(names(out) =~= names(fields));
        },
        None => {
            assert(names(out) =~= names(fields).push(f.name));
        },
    }
}

pub proof fn lemma_upsert_all_distinct(fields: Seq<FieldSpec>, more: Seq<FieldSpec>)
    requires
        distinct(fields),
    ensures
        distinct(upsert_all(fields, more)),
    decreases more.len(),
{
    if more.len() > 0 {
        lemma_upsert_all_distinct(fields, more.drop_last());
        lemma_upsert_distinct(upsert_all(fields, more.drop_last()), more.last());
    }
}

/// Putting in fields whose names are new appends them.
pub proof fn lemma_upsert_all_fresh(fields: Seq<FieldSpec>, more: Seq<FieldSpec>)
    requires
        distinct(fields + more),
    ensures
        upsert_all(fields, more) == fields + more,
    decreases more.len(),
{
    if more.len() > 0 {
        let front = more.drop_last();
        let f = more.last();
        let all = fields + more;
        assert(fields + front =~= all.drop_last());
        assert(names(fields + front) =~= names(all).drop_last());
        lemma_upsert_all_fresh(fields, front);
        lemma_name_index(fields + front, f.name);
        if let Some(i) = name_index(fields + front, f.name) {
            assert(names(all)[i] == f.name);
            assert(names(all)[all.len() - 1] == f.name);
        }
        assert((fields + front).push(f) =~= all);
    } else {
        assert(fields + more =~= fields);
    }
}

// ---------------------------------------------------------------------------
// Signatures
// ---------------------------------------------------------------------------

/// What the fields of a list say.
pub open spec fn field_list(v: Seq<FieldDef>) -> Seq<FieldSpec> {
    v.map_values(|f: FieldDef| f@)
}

/// Appends a field to a list.
pub fn push_field(v: &mut Vec<FieldDef>, f: FieldDef)
    ensures
        field_list(final(v)@) == field_list(old(v)@).push(f@),
{
    v.push(f);
    proof {
        assert(field_list(v@) =~= field_list(old(v)@).push(f@));
    }
}

/// What the fields of a map say, in order.
spec fn map_fields(m: IndexMap<String, FieldDef>) -> Seq<FieldSpec> {
    field_entries(m).map_values(|e: (Seq<char>, FieldDef)| e.1@)
}

/// Every field stands under its name, and no name twice.
spec fn map_ok(m: IndexMap<String, FieldDef>) -> bool {
    &&& forall|i: int|
        0 <= i < field_entries(m).len() ==> (#[trigger] field_entries(m)[i]).0
            == field_entries(m)[i].1.name@
    &&& distinct(map_fields(m))
}

proof fn lemma_key_index(e: Seq<(Seq<char>, FieldDef)>, name: Seq<char>)
    requires
        forall|i: int| 0 <= i < e.len() ==> (#[trigger] e[i]).0 == e[i].1.name@,
    ensures
        key_index(e, name) == name_index(
            e.map_values(|x: (Seq<char>, FieldDef)| x.1@),
            name,
        ),
    decreases e.len(),
{
    let fields = e.map_values(|x: (Seq<char>, FieldDef)| x.1@);
    if e.len() > 0 {
        let front = e.drop_last();
        assert(fields.drop_last() =~= front.map_values(|x: (Seq<char>, FieldDef)| x.1@));
        assert forall|i: int| 0 <= i < front.len() implies (#[trigger] front[i]).0
            == front[i].1.name@ by {
            assert(front[i] == e[i]);
        }
        lemma_key_index(front, name);
        assert(e[e.len() - 1].0 == e.last().1.name@);
    }
}

/// Puts a field in: in place of the field of its name, or last.
fn put_field(m: &mut IndexMap<String, FieldDef>, f: FieldDef)
    requires
        map_ok(*old(m)),
    ensures
        map_ok(*final(m)),
        map_fields(*final(m)) == upsert(map_fields(*old(m)), f@),
{
    let ghost e = field_entries(*m);
    let ghost before = map_fields(*m);
    proof {
        lemma_key_index(e, f.name@);
        lemma_name_index(before, f.name@);
        lemma_upsert_distinct(before, f@);
    }
    fields_insert(m, f.name.clone(), f);
    proof {
        assert(map_fields(*m) =~= upsert(before, f@));
        let e2 = field_entries(*m);
        assert forall|i: int| 0 <= i < e2.len() implies (#[trigger] e2[i]).0 == e2[i].1.name@ by {
            if i < e.len() {
                assert(e[i].0 == e[i].1.name@);
            }
        }
    }
}

/// Puts fields in one after the other.
fn put_fields(m: &mut IndexMap<String, FieldDef>, fields: Vec<FieldDef>)
    requires
        map_ok(*old(m)),
    ensures
        map_ok(*final(m)),
        map_fields(*final(m)) == upsert_all(map_fields(*old(m)), field_list(fields@)),
{
    let ghost before = map_fields(*m);
    let ghost all = fields@;
    proof {
        assert(field_list(all).take(0) =~= Seq::<FieldSpec>::empty());
    }
    for f in it: fields
        invariant
            it.seq() == all,
            map_ok(*m),
            map_fields(*m) == upsert_all(before, field_list(all).take(it.index())),
    {
        proof {
            let i = it.index();
            assert(field_list(all).take(i + 1).drop_last() =~= field_list(all).take(i));
            assert(field_list(all).take(i + 1).last() == f@);
        }
        put_field(m, f);
    }
    proof {
        assert(field_list(all).take(all.len() as int) =~= field_list(all));
    }
}

/// Copies of the fields from a position on.
fn copy_from(m: &IndexMap<String, FieldDef>, from: usize) -> (r: Vec<FieldDef>)
    requires
        from <= field_entries(*m).len(),
    ensures
        field_list(r@) == map_fields(*m).skip(from as int),
{
    let n: usize = fields_len(m);
    let mut r: Vec<FieldDef> = Vec::new();
    let mut i: usize = from;
    while i < n
        invariant
            n == field_entries(*m).len(),
            from <= i <= n,
            field_list(r@) == map_fields(*m).subrange(from as int, i as int),
        decreases n - i,
    {
        proof {
            assert(map_fields(*m).subrange(from as int, i + 1) =~= map_fields(*m).subrange(
                from as int,
                i as int,
            ).push(map_fields(*m)[i as int]));
        }
        match fields_at(m, i) {
            Some((_, f)) => {
                push_field(&mut r, f.clone());
            },
            None => {},
        }
        i = i + 1;
    }
    proof {
        assert(map_fields(*m).subrange(from as int, n as int) =~= map_fields(*m).skip(
            from as int,
        ));
    }
    r
}

/// Copies of the fields up to a position.
fn copy_until(m: &IndexMap<String, FieldDef>, to: usize) -> (r: Vec<FieldDef>)
    requires
        to <= field_entries(*m).len(),
    ensures
        field_list(r@) == map_fields(*m).take(to as int),
{
    let mut r: Vec<FieldDef> = Vec::new();
    let mut i: usize = 0;
    while i < to
        invariant
            to <= field_entries(*m).len(),
            i <= to,
            field_list(r@) == map_fields(*m).take(i as int),
        decreases to - i,
    {
        proof {
            assert(map_fields(*m).take(i + 1) =~= map_fields(*m).take(i as int).push(
                map_fields(*m)[i as int],
            ));
        }
        match fields_at(m, i) {
            Some((_, f)) => {
                push_field(&mut r, f.clone());
            },
            None => {},
        }
        i = i + 1;
    }
    r
}

/// A new map with the given fields.
fn map_of_fields(fields: Vec<FieldDef>) -> (r: IndexMap<String, FieldDef>)
    ensures
        map_ok(r),
        map_fields(r) == upsert_all(Seq::empty(), field_list(fields@)),
{
    let mut m = fields_new();
    proof {
        assert(map_fields(m) =~= Seq::<FieldSpec>::empty());
    }
    put_fields(&mut m, fields);
    m
}

/// The named inputs and outputs of a task.
#[derive(Debug)]
pub struct Signature {
    instructions: String,
    fields: IndexMap<String, FieldDef>,
}

impl View for Signature {
    type V = SigSpec;

    closed spec fn view(&self) -> SigSpec {
        SigSpec { instructions: self.instructions@, fields: map_fields(self.fields) }
    }
}

impl Signature {
    /// Every field stands under its name, and no name twice.
    #[verifier::type_invariant]
    pub closed spec fn wf(self) -> bool {
        map_ok(self.fields)
    }

    /// The names of the fields of a signature are distinct.
    pub proof fn lemma_distinct(self)
        requires
            self.wf(),
        ensures
            distinct(self@.fields),
    {
    }

    /// The signature with the given fields. Of fields with the same name, the last
    /// stands in the place of the first.
    pub fn new(fields: Vec<FieldDef>, instructions: &str) -> (r: Self)
        ensures
            r@ == (SigSpec {
                instructions: instructions@,
                fields: upsert_all(Seq::empty(), field_list(fields@)),
            }),
    {
        Signature { instructions: instructions.to_owned(), fields: map_of_fields(fields) }
    }

    /// The instructions.
    pub fn instructions(&self) -> (r: &str)
        ensures
            r@ == self@.instructions,
    {
        self.instructions.as_str()
    }

    /// The fields, in order.
    pub fn fields(&self) -> (r: &IndexMap<String, FieldDef>)
        ensures
            field_entries(*r).map_values(|e: (Seq<char>, FieldDef)| e.1@) == self@.fields,
            field_entries(*r).map_values(|e: (Seq<char>, FieldDef)| e.0) == names(self@.fields),
    {
        proof {
            use_type_invariant(&*self);
            assert(field_entries(self.fields).map_values(|e: (Seq<char>, FieldDef)| e.0) =~= names(
                self@.fields,
            ));
        }
        &self.fields
    }

    /// How many fields there are.
    pub fn len(&self) -> (n: usize)
        ensures
            n == self@.fields.len(),
    {
        fields_len(&self.fields)
    }

    /// The field at a position.
    pub fn field_at(&self, i: usize) -> (r: &FieldDef)
        requires
            i < self@.fields.len(),
        ensures
            r@ == self@.fields[i as int],
    {
        fields_at(&self.fields, i).unwrap().1
    }

    /// The fields of a type, in order.
    fn fields_of(&self, t: FieldType) -> (r: Vec<(&String, &FieldDef)>)
        ensures
            r@.map_values(|e: (&String, &FieldDef)| e.1@) == of_type(self@.fields, t),
            forall|i: int| 0 <= i < r@.len() ==> (#[trigger] r@[i]).0@ == r@[i].1@.name,
    {
        proof {
            use_type_invariant(&*self);
        }
        let n: usize = fields_len(&self.fields);
        let mut r: Vec<(&String, &FieldDef)> = Vec::new();
        let mut i: usize = 0;
        proof {
            assert(self@.fields.take(0) =~= Seq::<FieldSpec>::empty());
        }
        while i < n
            invariant
                n == self@.fields.len(),
                n == field_entries(self.fields).len(),
                map_ok(self.fields),
                i <= n,
                r@.map_values(|e: (&String, &FieldDef)| e.1@) =~= of_type(
                    self@.fields.take(i as int),
                    t,
                ),
                forall|i: int| 0 <= i < r@.len() ==> (#[trigger] r@[i]).0@ == r@[i].1@.name,
            decreases n - i,
        {
            proof {
                assert(self@.fields.take(i + 1).drop_last() =~= self@.fields.take(i as int));
                assert(self@.fields.take(i + 1).last() == self@.fields[i as int]);
            }
            match fields_at(&self.fields, i) {
                Some((k, f)) => {
                    if f.field_type == t {
                        r.push((k, f));
                    }
                },
                None => {},
            }
            i = i + 1;
        }
        proof {
            assert(self@.fields.take(i as int) =~= self@.fields);
        }
        r
    }

    /// The input fields with their names, in order.
    pub fn input_fields(&self) -> (r: Vec<(&String, &FieldDef)>)
        ensures
            r@.map_values(|e: (&String, &FieldDef)| e.1@) == self@.inputs(),
            forall|i: int| 0 <= i < r@.len() ==> (#[trigger] r@[i]).0@ == r@[i].1@.name,
    {
        self.fields_of(FieldType::Input)
    }

    /// The output fields with their names, in order.
    pub fn output_fields(&self) -> (r: Vec<(&String, &FieldDef)>)
        ensures
            r@.map_values(|e: (&String, &FieldDef)| e.1@) == self@.outputs(),
            forall|i: int| 0 <= i < r@.len() ==> (#[trigger] r@[i]).0@ == r@[i].1@.name,
    {
        self.fields_of(FieldType::Output)
    }

    /// Copies of the fields of a type, in order.
    pub fn fields_copied(&self, t: FieldType) -> (r: Vec<FieldDef>)
        ensures
            field_list(r@) == of_type(self@.fields, t),
    {
        let list = self.fields_of(t);
        let mut r: Vec<FieldDef> = Vec::new();
        let mut i: usize = 0;
        let ghost want = of_type(self@.fields, t);
        while i < list.len()
            invariant
                i <= list.len(),
                list@.map_values(|e: (&String, &FieldDef)| e.1@) == want,
                field_list(r@) == want.take(i as int),
            decreases list.len() - i,
        {
            proof {
                assert(want[i as int] == list@[i as int].1@);
                assert(want.take(i + 1) =~= want.take(i as int).push(want[i as int]));
            }
            push_field(&mut r, list[i].1.clone());
            i = i + 1;
        }
        proof {
            assert(want.take(i as int) =~= want);
        }
        r
    }

    /// The names of the fields of a type, in order.
    pub fn names_of(&self, t: FieldType) -> (r: Vec<String>)
        ensures
            texts(r@) == names(of_type(self@.fields, t)),
    {
        let list = self.fields_of(t);
        let mut r: Vec<String> = Vec::new();
        let mut i: usize = 0;
        let ghost want = of_type(self@.fields, t);
        while i < list.len()
            invariant
                i <= list.len(),
                list@.map_values(|e: (&String, &FieldDef)| e.1@) == want,
                texts(r@) == names(want).take(i as int),
            decreases list.len() - i,
        {
            proof {
                assert(want[i as int] == list@[i as int].1@);
                assert(names(want).take(i + 1) =~= names(want).take(i as int).push(
                    list@[i as int].1@.name,
                ));
            }
            push_text(&mut r, list[i].1.name.clone());
            i = i + 1;
        }
        proof {
            assert(names(want).take(i as int) =~= names(want));
        }
        r
    }

    /// The names of the input fields, in order.
    pub fn input_names(&self) -> (r: Vec<String>)
        ensures
            texts(r@) == names(self@.inputs()),
    {
        self.names_of(FieldType::Input)
    }

    /// The names of the output fields, in order.
    pub fn output_names(&self) -> (r: Vec<String>)
        ensures
            texts(r@) == names(self@.outputs()),
    {
        self.names_of(FieldType::Output)
    }

    /// The field of a name.
    pub fn get_field(&self, name: &str) -> (r: Option<&FieldDef>)
        ensures
            match name_index(self@.fields, name@) {
                Some(i) => r matches Some(f) && f@ == self@.fields[i],
                None => r is None,
            },
    {
        proof {
            use_type_invariant(&*self);
            lemma_key_index(field_entries(self.fields), name@);
            lemma_name_index(self@.fields, name@);
        }
        fields_get(&self.fields, name)
    }

    /// A copy of the map of fields.
    fn copied(&self) -> (r: IndexMap<String, FieldDef>)
        ensures
            map_ok(r),
            map_fields(r) == self@.fields,
    {
        let fields = copy_from(&self.fields, 0);
        proof {
            use_type_invariant(&*self);
            assert(self@.fields.skip(0) =~= self@.fields);
            assert(Seq::<FieldSpec>::empty() + self@.fields =~= self@.fields);
            lemma_upsert_all_fresh(Seq::empty(), self@.fields);
        }
        map_of_fields(fields)
    }

    /// The signature with other instructions.
    pub fn with_instructions(&self, instructions: &str) -> (r: Self)
        ensures
            r@ == (SigSpec { instructions: instructions@, ..self@ }),
    {
        Signature { instructions: instructions.to_owned(), fields: self.copied() }
    }

    /// The signature with a field at the start of its group.
    pub fn prepend(&self, field: FieldDef) -> (r: Self)
        ensures
            r@ == self@.prepend(field@),
    {
        proof {
            use_type_invariant(&*self);
        }
        let fields = match field.field_type {
            FieldType::Input => {
                let mut first: Vec<FieldDef> = Vec::new();
                first.push(field);
                let mut m = map_of_fields(first);
                proof {
                    assert(field_list(first@) =~= seq![field@]);
                    assert(Seq::<FieldSpec>::empty() + seq![field@] =~= seq![field@]);
                    lemma_upsert_all_fresh(Seq::empty(), seq![field@]);
                    assert(self@.fields.skip(0) =~= self@.fields);
                }
                put_fields(&mut m, copy_from(&self.fields, 0));
                m
            },
            FieldType::Output => {
                let mut m = map_of_fields(self.fields_copied(FieldType::Input));
                proof {
                    lemma_of_type_distinct(self@.fields, FieldType::Input);
                    assert(Seq::<FieldSpec>::empty() + self@.inputs() =~= self@.inputs());
                    lemma_upsert_all_fresh(Seq::empty(), self@.inputs());
                }
                put_field(&mut m, field);
                put_fields(&mut m, self.fields_copied(FieldType::Output));
                m
            },
        };
        Signature { instructions: self.instructions.clone(), fields }
    }

    /// The signature with a field last.
    pub fn append(&self, field: FieldDef) -> (r: Self)
        ensures
            r@ == self@.append(field@),
    {
        let mut fields = self.copied();
        put_field(&mut fields, field);
        Signature { instructions: self.instructions.clone(), fields }
    }

    /// The signature with a field before the one at a position, or last.
    pub fn insert(&self, index: usize, field: FieldDef) -> (r: Self)
        ensures
            r@ == self@.insert(index as int, field@),
    {
        proof {
            use_type_invariant(&*self);
        }
        let n: usize = fields_len(&self.fields);
        if index < n {
            let mut fields = map_of_fields(copy_until(&self.fields, index));
            proof {
                let front = self@.fields.take(index as int);
                assert(names(front) =~= names(self@.fields).take(index as int));
                assert(Seq::<FieldSpec>::empty() + front =~= front);
                lemma_upsert_all_fresh(Seq::empty(), front);
            }
            put_field(&mut fields, field);
            put_fields(&mut fields, copy_from(&self.fields, index));
            Signature { instructions: self.instructions.clone(), fields }
        } else {
            self.append(field)
        }
    }

    /// The signature without a field.
    pub fn delete_field(&self, name: &str) -> (r: Self)
        ensures
            r@ == self@.delete(name@),
    {
        let mut fields = self.copied();
        let ghost e = field_entries(fields);
        proof {
            lemma_key_index(e, name@);
            lemma_name_index(self@.fields, name@);
        }
        fields_remove(&mut fields, name);
        proof {
            let e2 = field_entries(fields);
            assert(map_fields(fields) =~= without(self@.fields, name@));
            match name_index(self@.fields, name@) {
                Some(i) => {
                    assert(names(map_fields(fields)) =~= names(self@.fields).remove(i));
                    assert forall|a: int, b: int|
                        0 <= a < e2.len() && 0 <= b < e2.len() && a != b implies names(
                        map_fields(fields),
                    )[a] != names(map_fields(fields))[b] by {
                        let a2 = if a < i { a } else { a + 1 };
                        let b2 = if b < i { b } else { b + 1 };
                        assert(names(self@.fields)[a2] != names(self@.fields)[b2]);
                    }
                    assert forall|a: int| 0 <= a < e2.len() implies (#[trigger] e2[a]).0
                        == e2[a].1.name@ by {
                        let a2 = if a < i { a } else { a + 1 };
                        assert(e2[a] == e[a2]);
                    }
                },
                None => {},
            }
        }
        Signature { instructions: self.instructions.clone(), fields }
    }
}

/// Fields of one type out of fields with distinct names have distinct names.
pub proof fn lemma_of_type_distinct(fields: Seq<FieldSpec>, t: FieldType)
    requires
        distinct(fields),
    ensures
        distinct(of_type(fields, t)),
        forall|n: Seq<char>|
            names(of_type(fields, t)).contains(n) ==> names(fields).contains(n),
    decreases fields.len(),
{
    if fields.len() > 0 {
        let front = fields.drop_last();
        assert(names(front) =~= names(fields).drop_last());
        lemma_of_type_distinct(front, t);
        let out = of_type(fields, t);
        let inner = of_type(front, t);
        assert forall|n: Seq<char>| names(out).contains(n) implies names(fields).contains(n) by {
            let i = choose|i: int| 0 <= i < names(out).len() && names(out)[i] == n;
            if i < inner.len() {
                assert(names(inner)[i] == n);
                assert(names(front).contains(n));
                let j = choose|j: int| 0 <= j < names(front).len() && names(front)[j] == n;
                assert(names(fields)[j] == n);
            } else {
                assert(names(fields)[fields.len() - 1] == n);
            }
        }
        if fields.last().field_type == t {
            assert(names(out) =~= names(inner).push(fields.last().name));
            if names(inner).contains(fields.last().name) {
                assert(names(front).contains(fields.last().name));
                let j = choose|j: int|
                    0 <= j < names(front).len() && names(front)[j] == fields.last().name;
                assert(names(fields)[j] == names(fields)[fields.len() - 1]);
            }
            assert(names(out).no_duplicates());
        }
    }
}

impl Clone for Signature {
    fn clone(&self) -> (r: Self)
        ensures
            r@ == self@,
    {
        Signature { instructions: self.instructions.clone(), fields: self.copied() }
    }
}

// ---------------------------------------------------------------------------
// Changing a field
// ---------------------------------------------------------------------------

/// What is given, or else what is there.
pub open spec fn or_else<T>(given: Option<T>, there: Option<T>) -> Option<T> {
    match given {
        Some(t) => Some(t),
        None => there,
    }
}

/// A field with an update applied.
pub open spec fn updated(f: FieldSpec, u: FieldUpdate) -> FieldSpec {
    FieldSpec {
        name: f.name,
        field_type: f.field_type,
        description: or_else(opt_view(u.description), f.description),
        prefix: or_else(opt_view(u.prefix), f.prefix),
        format: or_else(opt_view(u.format), f.format),
    }
}

impl Signature {
    /// The signature with an update applied to the field of a name, if there is
    /// one.
    pub fn with_updated_field(&self, name: &str, updates: FieldUpdate) -> (r: Self)
        ensures
            r@ == (SigSpec {
                instructions: self@.instructions,
                fields: match name_index(self@.fields, name@) {
                    Some(i) => self@.fields.update(i, updated(self@.fields[i], updates)),
                    None => self@.fields,
                },
            }),
    {
        let mut fields = self.copied();
        let found = match self.get_field(name) {
            Some(f) => Some(f.clone()),
            None => None,
        };
        if let Some(f) = found {
            let g = FieldDef {
                name: f.name,
                field_type: f.field_type,
                description: match updates.description {
                    Some(t) => Some(t),
                    None => f.description,
                },
                prefix: match updates.prefix {
                    Some(t) => Some(t),
                    None => f.prefix,
                },
                format: match updates.format {
                    Some(t) => Some(t),
                    None => f.format,
                },
            };
            proof {
                lemma_name_index(self@.fields, name@);
            }
            put_field(&mut fields, g);
        }
        Signature { instructions: self.instructions.clone(), fields }
    }
}

// ---------------------------------------------------------------------------
// Shorthand
// ---------------------------------------------------------------------------

/// What stands before the first colon, trimmed, or all of it.
pub open spec fn piece_name(s: Seq<char>) -> Seq<char> {
    match crate::text::find_first(s, ":"@) {
        Some(p) => trim_of(s.subrange(0, p)),
        None => trim_of(s),
    }
}

/// What stands after the first colon, trimmed, where there is anything.
pub open spec fn piece_desc(s: Seq<char>) -> Option<Seq<char>> {
    match crate::text::find_first(s, ":"@) {
        Some(p) => {
            let d = trim_of(s.subrange(p + 1, s.len() as int));
            if d.len() == 0 {
                None
            } else {
                Some(d)
            }
        },
        None => None,
    }
}

/// The field that a piece of shorthand stands for.
pub open spec fn piece_field(s: Seq<char>, t: FieldType) -> FieldSpec {
    FieldSpec { description: piece_desc(s), ..FieldSpec::bare(piece_name(s), t) }
}

/// The fields that pieces of shorthand stand for; a blank piece stands for none.
pub open spec fn piece_fields(pieces: Seq<Seq<char>>, t: FieldType) -> Seq<FieldSpec>
    decreases pieces.len(),
{
    if pieces.len() == 0 {
        Seq::empty()
    } else {
        let piece = trim_of(pieces.last());
        let front = piece_fields(pieces.drop_last(), t);
        if piece.len() == 0 {
            front
        } else {
            front.push(piece_field(piece, t))
        }
    }
}

/// The fields that comma-separated shorthand stands for.
pub open spec fn side_fields(s: Seq<char>, t: FieldType) -> Seq<FieldSpec> {
    piece_fields(split_of(trim_of(s), ','), t)
}

/// The fields that shorthand of the form `inputs -> outputs` stands for.
pub open spec fn shorthand_fields(spec_text: Seq<char>, arrow: int) -> Seq<FieldSpec> {
    side_fields(spec_text.subrange(0, arrow), FieldType::Input) + side_fields(
        spec_text.subrange(arrow + 2, spec_text.len() as int),
        FieldType::Output,
    )
}

/// The signature that shorthand stands for, or what is wrong with it.
pub open spec fn sig_of_text(spec_text: Seq<char>) -> std::result::Result<SigSpec, Seq<char>> {
    match crate::text::find_first(spec_text, "->"@) {
        None => Err("Expected 'inputs -> outputs', got: "@ + spec_text),
        Some(p) => {
            let fields = shorthand_fields(spec_text, p);
            if fields.len() == 0 {
                Err("Signature must have at least one field"@)
            } else {
                Ok(
                    SigSpec {
                        instructions: Seq::empty(),
                        fields: upsert_all(Seq::empty(), fields),
                    },
                )
            }
        },
    }
}

/// A result is the signature that is wanted, or the error that says what is wrong.
pub open spec fn gives_sig(
    r: Result<Signature>,
    want: std::result::Result<SigSpec, Seq<char>>,
) -> bool {
    match want {
        Ok(s) => r matches Ok(sig) && sig@ == s,
        Err(m) => r matches Err(DspyError::InvalidSignature(e)) && e@ == m,
    }
}

/// The shorthand of the names of the fields.
pub open spec fn shorthand_of(s: SigSpec) -> Seq<char> {
    join_of(names(s.inputs()), ", "@) + " -> "@ + join_of(names(s.outputs()), ", "@)
}

/// The name and the description in `name: description` or `name`.
pub fn parse_field_with_desc(s: &str) -> (r: (String, Option<String>))
    ensures
        r.0@ == piece_name(s@),
        opt_view(r.1) == piece_desc(s@),
{
    let v = chars_of(s);
    let n: usize = v.len();
    proof {
        reveal_strlit(":");
    }
    match find_text(s, ":") {
        Some(p) => {
            let name = trim(slice_text(&v, 0, p).as_str());
            let desc = trim(slice_text(&v, p + 1, n).as_str());
            if desc.as_str().is_empty() {
                (name, None)
            } else {
                (name, Some(desc))
            }
        },
        None => (trim(s), None),
    }
}

/// Appends the fields that comma-separated shorthand stands for.
fn parse_side(out: &mut Vec<FieldDef>, side: &str, t: FieldType)
    ensures
        field_list(final(out)@) == field_list(old(out)@) + side_fields(side@, t),
{
    let trimmed = trim(side);
    let pieces = split(trimmed.as_str(), ',');
    let ghost before = field_list(out@);
    let ghost all = texts(pieces@);
    let mut i: usize = 0;
    proof {
        assert(all.take(0) =~= Seq::<Seq<char>>::empty());
        assert(before + piece_fields(all.take(0), t) =~= before);
    }
    while i < pieces.len()
        invariant
            i <= pieces.len(),
            all == texts(pieces@),
            field_list(out@) == before + piece_fields(all.take(i as int), t),
        decreases pieces.len() - i,
    {
        proof {
            assert(all.take(i + 1).drop_last() =~= all.take(i as int));
            assert(all.take(i + 1).last() == pieces@[i as int]@);
        }
        let piece = trim(pieces[i].as_str());
        if !piece.as_str().is_empty() {
            let (name, description) = parse_field_with_desc(piece.as_str());
            let f = FieldDef { name, field_type: t, description, prefix: None, format: None };
            proof {
                assert(f@ == piece_field(piece@, t));
                let front = piece_fields(all.take(i as int), t);
                assert((before + front).push(f@) =~= before + front.push(f@));
            }
            push_field(out, f);
        }
        i = i + 1;
    }
    proof {
        assert(all.take(i as int) =~= all);
    }
}

/// Putting fields in leaves none only where there was none to put in.
pub proof fn lemma_upsert_all_empty(more: Seq<FieldSpec>)
    ensures
        upsert_all(Seq::empty(), more).len() == 0 <==> more.len() == 0,
{
    if more.len() > 0 {
        lemma_name_index(upsert_all(Seq::empty(), more.drop_last()), more.last().name);
    }
}

impl Signature {
    /// Reads shorthand such as `question -> answer` or
    /// `question, context -> answer: detailed answer`.
    pub fn from_string(spec_text: &str) -> (r: Result<Self>)
        ensures
            gives_sig(r, sig_of_text(spec_text@)),
    {
        proof {
            reveal_strlit("->");
        }
        match find_text(spec_text, "->") {
            None => {
                let mut m = "Expected 'inputs -> outputs', got: ".to_string();
                m.append(spec_text);
                Err(DspyError::InvalidSignature(m))
            },
            Some(p) => {
                let v = chars_of(spec_text);
                let n: usize = v.len();
                let inputs = slice_text(&v, 0, p);
                let outputs = slice_text(&v, p + 2, n);
                let mut fields: Vec<FieldDef> = Vec::new();
                parse_side(&mut fields, inputs.as_str(), FieldType::Input);
                parse_side(&mut fields, outputs.as_str(), FieldType::Output);
                proof {
                    assert(field_list(fields@) =~= shorthand_fields(spec_text@, p as int));
                    lemma_upsert_all_empty(field_list(fields@));
                }
                if fields.len() == 0 {
                    Err(
                        DspyError::InvalidSignature(
                            "Signature must have at least one field".to_string(),
                        ),
                    )
                } else {
                    Ok(Signature { instructions: String::new(), fields: map_of_fields(fields) })
                }
            },
        }
    }

    /// The shorthand of the names of the fields.
    pub fn to_shorthand(&self) -> (r: String)
        ensures
            r@ == shorthand_of(self@),
    {
        let mut r = join(&self.input_names(), ", ");
        r.append(" -> ");
        r.append(join(&self.output_names(), ", ").as_str());
        r
    }
}

impl TryFrom<&str> for Signature {
    type Error = DspyError;

    /// Reads shorthand.
    fn try_from(s: &str) -> (r: Result<Self>)
        ensures
            gives_sig(r, sig_of_text(s@)),
    {
        Signature::from_string(s)
    }
}

impl vstd::std_specs::convert::TryFromSpecImpl<&str> for Signature {
    open spec fn obeys_try_from_spec() -> bool {
        false
    }

    open spec fn try_from_spec(v: &str) -> Result<Signature> {
        arbitrary()
    }
}

// ---------------------------------------------------------------------------
// Saving and restoring
// ---------------------------------------------------------------------------

/// The word for a field type.
pub open spec fn type_word(t: FieldType) -> Seq<char> {
    match t {
        FieldType::Input => "input"@,
        FieldType::Output => "output"@,
    }
}

/// What a field says in JSON.
pub open spec fn field_json(f: FieldSpec) -> JsonSpec {
    JsonSpec::Object(
        empty_object().insert("name"@, JsonSpec::Text(f.name)).insert(
            "field_type"@,
            JsonSpec::Text(type_word(f.field_type)),
        ).insert("description"@, text_or_null(f.description)).insert(
            "prefix"@,
            text_or_null(f.prefix),
        ).insert("format"@, text_or_null(f.format)),
    )
}

/// What a signature says in JSON.
pub open spec fn sig_json(s: SigSpec) -> JsonSpec {
    JsonSpec::Object(
        empty_object().insert("instructions"@, JsonSpec::Text(s.instructions)).insert(
            "fields"@,
            JsonSpec::Array(s.fields.map_values(|f: FieldSpec| field_json(f))),
        ),
    )
}

/// The field that a JSON value describes, or what is wrong with it.
pub open spec fn field_of_json(j: JsonSpec) -> std::result::Result<FieldSpec, Seq<char>> {
    match member_text(j, "name"@) {
        None => Err("Field missing 'name'"@),
        Some(name) => {
            let t = member_text(j, "field_type"@);
            if t == Some("input"@) || t == Some("output"@) {
                Ok(
                    FieldSpec {
                        name,
                        field_type: if t == Some("input"@) {
                            FieldType::Input
                        } else {
                            FieldType::Output
                        },
                        description: member_text(j, "description"@),
                        prefix: member_text(j, "prefix"@),
                        format: member_text(j, "format"@),
                    },
                )
            } else {
                Err("Invalid field_type"@)
            }
        },
    }
}

/// The fields that JSON values describe, or what is wrong with the first that
/// describes none.
pub open spec fn fields_of_json(items: Seq<JsonSpec>) -> std::result::Result<
    Seq<FieldSpec>,
    Seq<char>,
>
    decreases items.len(),
{
    if items.len() == 0 {
        Ok(Seq::empty())
    } else {
        match fields_of_json(items.drop_last()) {
            Err(e) => Err(e),
            Ok(front) => match field_of_json(items.last()) {
                Err(e) => Err(e),
                Ok(f) => Ok(front.push(f)),
            },
        }
    }
}

/// The signature that a JSON value describes, or what is wrong with it.
pub open spec fn sig_of_json(j: JsonSpec) -> std::result::Result<SigSpec, Seq<char>> {
    match member_of(j, "fields"@) {
        Some(JsonSpec::Array(items)) => match fields_of_json(items) {
            Err(e) => Err(e),
            Ok(fields) => Ok(
                SigSpec {
                    instructions: match member_text(j, "instructions"@) {
                        Some(t) => t,
                        None => Seq::empty(),
                    },
                    fields: upsert_all(Seq::empty(), fields),
                },
            ),
        },
        _ => Err("Expected 'fields' array"@),
    }
}

fn opt_owned(s: Option<&str>) -> (r: Option<String>)
    ensures
        opt_view(r) == match s {
            Some(t) => Some(t@),
            None => None,
        },
{
    match s {
        Some(t) => Some(t.to_owned()),
        None => None,
    }
}

fn load_field(j: &Json) -> (r: Result<FieldDef>)
    ensures
        match field_of_json(j@) {
            Ok(f) => r matches Ok(g) && g@ == f,
            Err(e) => r matches Err(DspyError::ParseError(m)) && m@ == e,
        },
{
    let name = match j.get_str("name") {
        Some(n) => n.to_owned(),
        None => {
            return Err(DspyError::ParseError("Field missing 'name'".to_string()));
        },
    };
    let field_type = match j.get_str("field_type") {
        Some(t) => if same(t, "input") {
            FieldType::Input
        } else if same(t, "output") {
            FieldType::Output
        } else {
            return Err(DspyError::ParseError("Invalid field_type".to_string()));
        },
        None => {
            return Err(DspyError::ParseError("Invalid field_type".to_string()));
        },
    };
    Ok(
        FieldDef {
            name,
            field_type,
            description: opt_owned(j.get_str("description")),
            prefix: opt_owned(j.get_str("prefix")),
            format: opt_owned(j.get_str("format")),
        },
    )
}

fn field_to_json(f: &FieldDef) -> (r: Json)
    ensures
        r@ == field_json(f@),
{
    let mut m = new_object();
    put_text(&mut m, "name", f.name.as_str());
    let word = match f.field_type {
        FieldType::Input => "input",
        FieldType::Output => "output",
    };
    put_text(&mut m, "field_type", word);
    put(&mut m, "description", Json::opt_text(&f.description));
    put(&mut m, "prefix", Json::opt_text(&f.prefix));
    put(&mut m, "format", Json::opt_text(&f.format));
    Json::Object(m)
}

impl Signature {
    /// The signature in JSON.
    pub fn dump_state(&self) -> (r: Json)
        ensures
            r@ == sig_json(self@),
    {
        let n: usize = self.len();
        let ghost want = self@.fields.map_values(|f: FieldSpec| field_json(f));
        let mut items: Vec<Json> = Vec::new();
        let mut i: usize = 0;
        while i < n
            invariant
                n == self@.fields.len(),
                i <= n,
                want == self@.fields.map_values(|f: FieldSpec| field_json(f)),
                json_list(items@) == want.take(i as int),
            decreases n - i,
        {
            proof {
                assert(want.take(i + 1) =~= want.take(i as int).push(want[i as int]));
            }
            push_json(&mut items, field_to_json(self.field_at(i)));
            i = i + 1;
        }
        proof {
            assert(want.take(i as int) =~= want);
        }
        let mut m = new_object();
        put_text(&mut m, "instructions", self.instructions.as_str());
        put(&mut m, "fields", Json::Array(items));
        Json::Object(m)
    }

    /// The signature that a JSON value describes.
    pub fn load_state(state: &Json) -> (r: Result<Self>)
        ensures
            match sig_of_json(state@) {
                Ok(s) => r matches Ok(sig) && sig@ == s,
                Err(e) => r matches Err(DspyError::ParseError(m)) && m@ == e,
            },
    {
        let items = match state.get("fields") {
            Some(Json::Array(v)) => v,
            _ => {
                return Err(DspyError::ParseError("Expected 'fields' array".to_string()));
            },
        };
        let ghost all = json_list(items@);
        proof {
            lemma_json_list(items@);
            assert(member_of(state@, "fields"@) == Some(JsonSpec::Array(all)));
            assert(all.take(0) =~= Seq::<JsonSpec>::empty());
        }
        let mut fields: Vec<FieldDef> = Vec::new();
        let mut i: usize = 0;
        proof {
            assert(field_list(fields@) =~= Seq::<FieldSpec>::empty());
        }
        while i < items.len()
            invariant
                i <= items.len(),
                all == json_list(items@),
                all.len() == items@.len(),
                member_of(state@, "fields"@) == Some(JsonSpec::Array(all)),
                forall|k: int| 0 <= k < items@.len() ==> #[trigger] all[k] == items@[k]@,
                fields_of_json(all.take(i as int)) == std::result::Result::<
                    Seq<FieldSpec>,
                    Seq<char>,
                >::Ok(field_list(fields@)),
            decreases items.len() - i,
        {
            proof {
                assert(all.take(i + 1).drop_last() =~= all.take(i as int));
                assert(all.take(i + 1).last() == items@[i as int]@);
            }
            match load_field(&items[i]) {
                Ok(f) => {
                    push_field(&mut fields, f);
                },
                Err(e) => {
                    proof {
                        lemma_first_error(all, i + 1);
                    }
                    return Err(e);
                },
            }
            i = i + 1;
        }
        proof {
            assert(all.take(i as int) =~= all);
        }
        let instructions = match state.get_str("instructions") {
            Some(t) => t.to_owned(),
            None => String::new(),
        };
        Ok(Signature { instructions, fields: map_of_fields(fields) })
    }
}

/// An error in a prefix is the error of the whole.
proof fn lemma_first_error(items: Seq<JsonSpec>, n: int)
    requires
        0 <= n <= items.len(),
        fields_of_json(items.take(n)) is Err,
    ensures
        fields_of_json(items) == fields_of_json(items.take(n)),
    decreases items.len() - n,
{
    if n < items.len() {
        assert(items.take(n + 1).drop_last() =~= items.take(n));
        lemma_first_error(items, n + 1);
    } else {
        assert(items.take(n) =~= items);
    }
}

// ---------------------------------------------------------------------------
// Building
// ---------------------------------------------------------------------------

/// Builds a signature field by field.
#[derive(Debug)]
pub struct SignatureBuilder {
    instructions: String,
    fields: Vec<FieldDef>,
}

impl SignatureBuilder {
    /// The instructions so far.
    pub closed spec fn spec_instructions(self) -> Seq<char> {
        self.instructions@
    }

    /// The fields so far.
    pub closed spec fn spec_fields(self) -> Seq<FieldSpec> {
        field_list(self.fields@)
    }

    /// A builder without instructions or fields.
    pub fn new() -> (r: Self)
        ensures
            r.spec_instructions() == Seq::<char>::empty(),
            r.spec_fields() == Seq::<FieldSpec>::empty(),
    {
        let r = SignatureBuilder { instructions: String::new(), fields: Vec::new() };
        proof {
            assert(r.spec_fields() =~= Seq::<FieldSpec>::empty());
        }
        r
    }

    /// Sets the instructions.
    pub fn instructions(self, instructions: &str) -> (r: Self)
        ensures
            r.spec_instructions() == instructions@,
            r.spec_fields() == self.spec_fields(),
    {
        SignatureBuilder { instructions: instructions.to_owned(), fields: self.fields }
    }

    fn with_field(self, f: FieldDef) -> (r: Self)
        ensures
            r.spec_instructions() == self.spec_instructions(),
            r.spec_fields() == self.spec_fields().push(f@),
    {
        let mut fields = self.fields;
        push_field(&mut fields, f);
        SignatureBuilder { instructions: self.instructions, fields }
    }

    /// Adds an input field.
    pub fn input(self, name: &str) -> (r: Self)
        ensures
            r.spec_instructions() == self.spec_instructions(),
            r.spec_fields() == self.spec_fields().push(FieldSpec::bare(name@, FieldType::Input)),
    {
        self.with_field(input_field(name))
    }

    /// Adds an input field with a description.
    pub fn input_with_desc(self, name: &str, desc: &str) -> (r: Self)
        ensures
            r.spec_instructions() == self.spec_instructions(),
            r.spec_fields() == self.spec_fields().push(
                FieldSpec::bare(name@, FieldType::Input).desc(desc@),
            ),
    {
        self.with_field(input_field(name).with_desc(desc))
    }

    /// Adds an output field.
    pub fn output(self, name: &str) -> (r: Self)
        ensures
            r.spec_instructions() == self.spec_instructions(),
            r.spec_fields() == self.spec_fields().push(FieldSpec::bare(name@, FieldType::Output)),
    {
        self.with_field(output_field(name))
    }

    /// Adds an output field with a description.
    pub fn output_with_desc(self, name: &str, desc: &str) -> (r: Self)
        ensures
            r.spec_instructions() == self.spec_instructions(),
            r.spec_fields() == self.spec_fields().push(
                FieldSpec::bare(name@, FieldType::Output).desc(desc@),
            ),
    {
        self.with_field(output_field(name).with_desc(desc))
    }

    /// The signature with what was added.
    pub fn build(self) -> (r: Signature)
        ensures
            r@ == (SigSpec {
                instructions: self.spec_instructions(),
                fields: upsert_all(Seq::empty(), self.spec_fields()),
            }),
    {
        Signature::new(self.fields, self.instructions.as_str())
    }
}

impl Default for SignatureBuilder {
    fn default() -> (r: Self)
        ensures
            r.spec_instructions() == Seq::<char>::empty(),
            r.spec_fields() == Seq::<FieldSpec>::empty(),
    {
        SignatureBuilder::new()
    }
}

impl Signature {
    /// A builder.
    pub fn define() -> (r: SignatureBuilder)
        ensures
            r.spec_instructions() == Seq::<char>::empty(),
            r.spec_fields() == Seq::<FieldSpec>::empty(),
    {
        SignatureBuilder::new()
    }
}

// ---------------------------------------------------------------------------
// Laws
// ---------------------------------------------------------------------------

proof fn lemma_field_json(f: FieldSpec)
    ensures
        field_of_json(field_json(f)) == std::result::Result::<FieldSpec, Seq<char>>::Ok(f),
{
    reveal_strlit("name");
    reveal_strlit("field_type");
    reveal_strlit("description");
    reveal_strlit("prefix");
    reveal_strlit("format");
    reveal_strlit("input");
    reveal_strlit("output");
    assert("name"@.len() == 4 && "field_type"@.len() == 10 && "description"@.len() == 11);
    assert("prefix"@.len() == 6 && "format"@.len() == 6);
    assert("input"@.len() == 5 && "output"@.len() == 6);
    assert("prefix"@[0] != "format"@[0]);
}

proof fn lemma_fields_json(fields: Seq<FieldSpec>)
    ensures
        fields_of_json(fields.map_values(|f: FieldSpec| field_json(f)))
            == std::result::Result::<Seq<FieldSpec>, Seq<char>>::Ok(fields),
    decreases fields.len(),
{
    let items = fields.map_values(|f: FieldSpec| field_json(f));
    if fields.len() > 0 {
        let front = fields.drop_last();
        assert(items.drop_last() =~= front.map_values(|f: FieldSpec| field_json(f)));
        lemma_fields_json(front);
        lemma_field_json(fields.last());
        assert(front.push(fields.last()) =~= fields);
    } else {
        assert(fields =~= Seq::<FieldSpec>::empty());
    }
}

/// A signature that was saved is restored as it was.
pub proof fn law_load_of_dump(s: SigSpec)
    requires
        distinct(s.fields),
    ensures
        sig_of_json(sig_json(s)) == std::result::Result::<SigSpec, Seq<char>>::Ok(s),
{
    reveal_strlit("instructions");
    reveal_strlit("fields");
    assert("instructions"@.len() == 12 && "fields"@.len() == 6);
    lemma_fields_json(s.fields);
    assert(Seq::<FieldSpec>::empty() + s.fields =~= s.fields);
    lemma_upsert_all_fresh(Seq::empty(), s.fields);
}

/// Each field is an input or an output, and none is both.
pub proof fn law_fields_are_inputs_or_outputs(fields: Seq<FieldSpec>)
    ensures
        of_type(fields, FieldType::Input).len() + of_type(fields, FieldType::Output).len()
            == fields.len(),
    decreases fields.len(),
{
    if fields.len() > 0 {
        law_fields_are_inputs_or_outputs(fields.drop_last());
    }
}

pub proof fn lemma_of_type_all(fields: Seq<FieldSpec>, t: FieldType, i: int)
    requires
        0 <= i < of_type(fields, t).len(),
    ensures
        of_type(fields, t)[i].field_type == t,
    decreases fields.len(),
{
    if fields.len() > 0 && i < of_type(fields.drop_last(), t).len() {
        lemma_of_type_all(fields.drop_last(), t, i);
    }
}

/// The names of the fields of the two types do not meet.
pub proof fn lemma_types_apart(fields: Seq<FieldSpec>)
    requires
        distinct(fields),
    ensures
        distinct(of_type(fields, FieldType::Input) + of_type(fields, FieldType::Output)),
    decreases fields.len(),
{
    let ins = of_type(fields, FieldType::Input);
    let outs = of_type(fields, FieldType::Output);
    let both = ins + outs;
    if fields.len() > 0 {
        let front = fields.drop_last();
        assert(names(front) =~= names(fields).drop_last());
        lemma_types_apart(front);
        let fi = of_type(front, FieldType::Input);
        let fo = of_type(front, FieldType::Output);
        lemma_of_type_distinct(front, FieldType::Input);
        lemma_of_type_distinct(front, FieldType::Output);
        let n = fields.last().name;
        assert(!names(front).contains(n)) by {
            if names(front).contains(n) {
                let j = choose|j: int| 0 <= j < names(front).len() && names(front)[j] == n;
                assert(names(fields)[j] == names(fields)[fields.len() - 1]);
            }
        }
        assert(!names(fi).contains(n));
        assert(!names(fo).contains(n));
        assert forall|a: int, b: int|
            0 <= a < both.len() && 0 <= b < both.len() && a != b implies names(both)[a]
            != names(both)[b] by {
            let old_both = fi + fo;
            if fields.last().field_type == FieldType::Output {
                assert(both =~= old_both.push(fields.last()));
                if a < old_both.len() && b < old_both.len() {
                    assert(names(old_both)[a] != names(old_both)[b]);
                } else {
                    let c = if a < old_both.len() { a } else { b };
                    if c < fi.len() {
                        assert(names(fi)[c] == names(both)[c]);
                    } else {
                        assert(names(fo)[c - fi.len()] == names(both)[c]);
                    }
                }
            } else {
                let at = fi.len() as int;
                let a2 = if a < at { a } else { a - 1 };
                let b2 = if b < at { b } else { b - 1 };
                if a != at && b != at {
                    assert(names(old_both)[a2] != names(old_both)[b2]);
                    assert(names(both)[a] == names(old_both)[a2]);
                    assert(names(both)[b] == names(old_both)[b2]);
                } else {
                    let c = if a == at { b } else { a };
                    let c2 = if c < at { c } else { c - 1 };
                    assert(names(both)[c] == names(old_both)[c2]);
                    if c2 < fi.len() {
                        assert(names(fi)[c2] == names(both)[c]);
                    } else {
                        assert(names(fo)[c2 - fi.len()] == names(both)[c]);
                    }
                }
            }
        }
    } else {
        assert(names(both) =~= Seq::<Seq<char>>::empty());
    }
}

/// An output that is prepended under a new name comes after the inputs and before
/// the other outputs.
pub proof fn law_prepended_output_comes_first(s: SigSpec, f: FieldSpec)
    requires
        distinct(s.fields),
        f.field_type == FieldType::Output,
        !names(s.fields).contains(f.name),
    ensures
        s.prepend(f).fields == s.inputs() + seq![f] + s.outputs(),
{
    let ins = s.inputs();
    let outs = s.outputs();
    lemma_types_apart(s.fields);
    lemma_of_type_distinct(s.fields, FieldType::Input);
    lemma_of_type_distinct(s.fields, FieldType::Output);
    lemma_name_index(ins, f.name);
    assert(upsert(ins, f) == ins.push(f)) by {
        if let Some(i) = name_index(ins, f.name) {
            assert(names(ins)[i] == f.name);
        }
    }
    let all = ins.push(f) + outs;
    assert forall|a: int, b: int|
        0 <= a < all.len() && 0 <= b < all.len() && a != b implies names(all)[a]
        != names(all)[b] by {
        let at = ins.len() as int;
        let both = ins + outs;
        let a2 = if a < at { a } else { a - 1 };
        let b2 = if b < at { b } else { b - 1 };
        if a != at && b != at {
            assert(names(both)[a2] != names(both)[b2]);
            assert(names(all)[a] == names(both)[a2]);
            assert(names(all)[b] == names(both)[b2]);
        } else {
            let c = if a == at { b } else { a };
            if c < at {
                assert(names(ins)[c] == names(all)[c]);
                assert(names(ins).contains(names(all)[c]));
            } else {
                assert(names(outs)[c - at - 1] == names(all)[c]);
                assert(names(outs).contains(names(all)[c]));
            }
        }
    }
    lemma_upsert_all_fresh(ins.push(f), outs);
    assert(all =~= ins + seq![f] + outs);
}

/// An input that is prepended under a new name comes first.
pub proof fn law_prepended_input_comes_first(s: SigSpec, f: FieldSpec)
    requires
        distinct(s.fields),
        f.field_type == FieldType::Input,
        !names(s.fields).contains(f.name),
    ensures
        s.prepend(f).fields == seq![f] + s.fields,
{
    let all = seq![f] + s.fields;
    assert forall|a: int, b: int|
        0 <= a < all.len() && 0 <= b < all.len() && a != b implies names(all)[a]
        != names(all)[b] by {
        if a > 0 && b > 0 {
            assert(names(s.fields)[a - 1] != names(s.fields)[b - 1]);
        } else {
            let c = if a > 0 { a } else { b };
            assert(names(s.fields)[c - 1] == names(all)[c]);
        }
    }
    lemma_upsert_all_fresh(seq![f], s.fields);
}

/// A field that is inserted under a new name stands at its position, and the
/// others keep their order.
pub proof fn law_inserted_field_stands_at_its_place(s: SigSpec, index: int, f: FieldSpec)
    requires
        distinct(s.fields),
        0 <= index <= s.fields.len(),
        !names(s.fields).contains(f.name),
    ensures
        s.insert(index, f).fields == s.fields.insert(index, f),
{
    lemma_name_index(s.fields, f.name);
    if index < s.fields.len() {
        let front = s.fields.take(index);
        let back = s.fields.skip(index);
        lemma_name_index(front, f.name);
        assert(upsert(front, f) == front.push(f)) by {
            if let Some(i) = name_index(front, f.name) {
                assert(names(s.fields)[i] == f.name);
            }
        }
        let all = front.push(f) + back;
        assert(all =~= s.fields.insert(index, f));
        assert forall|a: int, b: int|
            0 <= a < all.len() && 0 <= b < all.len() && a != b implies names(all)[a]
            != names(all)[b] by {
            let a2 = if a < index { a } else { a - 1 };
            let b2 = if b < index { b } else { b - 1 };
            if a != index && b != index {
                assert(names(s.fields)[a2] != names(s.fields)[b2]);
            } else {
                let c = if a == index { b2 } else { a2 };
                assert(names(s.fields).contains(names(s.fields)[c]));
            }
        }
        lemma_upsert_all_fresh(front.push(f), back);
    } else {
        if let Some(i) = name_index(s.fields, f.name) {
            assert(names(s.fields)[i] == f.name);
        }
        assert(s.fields.insert(index, f) =~= s.fields.push(f));
    }
}

/// Deleting a field that was appended under a new name gives the signature back.
pub proof fn law_delete_undoes_append(s: SigSpec, f: FieldSpec)
    requires
        !names(s.fields).contains(f.name),
    ensures
        s.append(f).delete(f.name) == s,
{
    lemma_name_index(s.fields, f.name);
    if let Some(i) = name_index(s.fields, f.name) {
        assert(names(s.fields)[i] == f.name);
    }
    assert(s.fields.push(f).drop_last() =~= s.fields);
    assert(s.fields.push(f).remove(s.fields.len() as int) =~= s.fields);
}

/// After a field is deleted no field has its name.
pub proof fn law_deleted_field_is_gone(s: SigSpec, name: Seq<char>)
    requires
        distinct(s.fields),
    ensures
        !names(s.delete(name).fields).contains(name),
{
    lemma_name_index(s.fields, name);
    let out = s.delete(name).fields;
    if names(out).contains(name) {
        let j = choose|j: int| 0 <= j < names(out).len() && names(out)[j] == name;
        match name_index(s.fields, name) {
            Some(i) => {
                let j2 = if j < i { j } else { j + 1 };
                assert(names(s.fields)[j2] == name);
                assert(names(s.fields)[i] == name);
            },
            None => {
                assert(names(s.fields)[j] == name);
            },
        }
    }
}

} // verus!
