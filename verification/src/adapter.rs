//! The chat adapter: prompts with `[[ ## field ## ]]` markers, and the fields in
//! a reply.

use crate::adapter_types::{citation_list, citations_of, citations_text, Citations};
use crate::error::{is_lm_error, DspyError, Result};
use crate::example::{example_list, lemma_example_list, Example, ExampleSpec};
use crate::json::{json_list, Json};
use crate::message::{message_list, push_message, Message, MessageSpec};
use crate::signature::{distinct, names, FieldDef, FieldSpec, SigSpec, Signature};
use crate::strmap::StrMap;
use crate::text::{
    byte_len, byte_len_of, byte_prefix, is_white, lemma_byte_cut, lemma_find_from, lemma_find_is,
    lemma_find_suffix, lemma_not_over_line, lemma_trim_back, lemma_trim_front, occurs_at, chars_of,
    contains, dec_of, begins_with, dec_size, find_chars, find_first, find_from, has_text, join,
    join_of, member, push_text, slice_text, texts, trim, trim_end, trim_end_of, trim_of,
};
use crate::value::{
    lemma_value_object, names_of, no_fields, put_value, set_pair, shown, value_object, Value,
    ValueSpec,
};
use vstd::prelude::*;

verus! {

// ---------------------------------------------------------------------------
// Pieces of prompts
// ---------------------------------------------------------------------------

/// The marker of a field.
pub open spec fn marker_of(name: Seq<char>) -> Seq<char> {
    "[[ ## "@ + name + " ## ]]"@
}

/// The marker that ends a reply.
pub open spec fn completed_marker() -> Seq<char> {
    "[[ ## completed ## ]]"@
}

/// The marker of a field.
pub fn marker(name: &str) -> (r: String)
    ensures
        r@ == marker_of(name@),
{
    let mut r = "[[ ## ".to_string();
    r.append(name);
    r.append(" ## ]]");
    r
}

/// A text between two others.
pub fn around(before: &str, s: &str, after: &str) -> (r: String)
    ensures
        r@ == before@ + s@ + after@,
{
    let mut r = before.to_string();
    r.append(s);
    r.append(after);
    r
}

/// The names, each between backquotes.
pub open spec fn ticked(names: Seq<Seq<char>>) -> Seq<Seq<char>> {
    names.map_values(|n: Seq<char>| "`"@ + n + "`"@)
}

/// The names, each between backquotes.
pub fn tick(names: &Vec<String>) -> (r: Vec<String>)
    ensures
        texts(r@) == ticked(texts(names@)),
{
    let mut r: Vec<String> = Vec::new();
    let mut i: usize = 0;
    let ghost want = ticked(texts(names@));
    while i < names.len()
        invariant
            i <= names.len(),
            want == ticked(texts(names@)),
            texts(r@) == want.take(i as int),
        decreases names.len() - i,
    {
        push_text(&mut r, around("`", names[i].as_str(), "`"));
        proof {
            assert(want.take(i + 1) =~= want.take(i as int).push(want[i as int]));
        }
        i = i + 1;
    }
    proof {
        assert(want.take(i as int) =~= want);
    }
    r
}

/// The names between backquotes and commas.
pub open spec fn ticked_list(names: Seq<Seq<char>>) -> Seq<char> {
    join_of(ticked(names), ", "@)
}

/// The names between backquotes and commas.
pub fn tick_list(names: &Vec<String>) -> (r: String)
    ensures
        r@ == ticked_list(texts(names@)),
{
    join(&tick(names), ", ")
}

/// The line that describes the `n`-th field.
pub open spec fn desc_line(n: nat, name: Seq<char>, desc: Option<Seq<char>>) -> Seq<char> {
    dec_of(n) + ". `"@ + name + "` (str): "@ + match desc {
        Some(d) => d,
        None => Seq::empty(),
    }
}

/// The lines that describe fields.
pub open spec fn desc_lines(fields: Seq<FieldSpec>) -> Seq<Seq<char>> {
    Seq::new(
        fields.len(),
        |i: int| desc_line((i + 1) as nat, fields[i].name, fields[i].description),
    )
}

/// The text that describes fields.
pub open spec fn field_descriptions(fields: Seq<FieldSpec>) -> Seq<char> {
    trim_end_of(join_of(desc_lines(fields), "\n"@))
}

/// The sentence that states the objective.
pub open spec fn objective_of(s: SigSpec, outputs: Seq<Seq<char>>) -> Seq<char> {
    if s.instructions.len() > 0 {
        "In adhering to this structure, your objective is: \n        "@ + s.instructions
    } else {
        "In adhering to this structure, your objective is: \n        Given the fields "@
            + ticked_list(names(s.inputs())) + ", produce the fields "@ + ticked_list(outputs)
            + "."@
    }
}

/// The sentence that states the objective.
pub(crate) fn objective(sig: &Signature, outputs: &Vec<String>) -> (r: String)
    ensures
        r@ == objective_of(sig@, texts(outputs@)),
{
    if !sig.instructions().is_empty() {
        let mut r = "In adhering to this structure, your objective is: \n        ".to_string();
        r.append(sig.instructions());
        r
    } else {
        let mut r =
            "In adhering to this structure, your objective is: \n        Given the fields ".to_string();
        r.append(tick_list(&sig.input_names()).as_str());
        r.append(", produce the fields ");
        r.append(tick_list(outputs).as_str());
        r.append(".");
        r
    }
}

/// The names that are not in a list.
pub open spec fn not_in(names: Seq<Seq<char>>, skip: Seq<Seq<char>>) -> Seq<Seq<char>>
    decreases names.len(),
{
    if names.len() == 0 {
        Seq::empty()
    } else if skip.contains(names.last()) {
        not_in(names.drop_last(), skip)
    } else {
        not_in(names.drop_last(), skip).push(names.last())
    }
}

/// The fields whose names are not in a list.
pub open spec fn fields_not_in(fields: Seq<FieldSpec>, skip: Seq<Seq<char>>) -> Seq<FieldSpec>
    decreases fields.len(),
{
    if fields.len() == 0 {
        Seq::empty()
    } else if skip.contains(fields.last().name) {
        fields_not_in(fields.drop_last(), skip)
    } else {
        fields_not_in(fields.drop_last(), skip).push(fields.last())
    }
}

pub proof fn lemma_names_not_in(fields: Seq<FieldSpec>, skip: Seq<Seq<char>>)
    ensures
        names(fields_not_in(fields, skip)) == not_in(names(fields), skip),
    decreases fields.len(),
{
    if fields.len() > 0 {
        lemma_names_not_in(fields.drop_last(), skip);
        assert(names(fields).drop_last() =~= names(fields.drop_last()));
        assert(names(fields_not_in(fields, skip)) =~= not_in(names(fields), skip));
    } else {
        assert(names(fields_not_in(fields, skip)) =~= not_in(names(fields), skip));
    }
}

/// The names that are not in a list.
pub fn drop_listed(names: &Vec<String>, skip: &Vec<String>) -> (r: Vec<String>)
    ensures
        texts(r@) == not_in(texts(names@), texts(skip@)),
{
    let mut r: Vec<String> = Vec::new();
    let mut i: usize = 0;
    let ghost all = texts(names@);
    proof {
        assert(all.take(0) =~= Seq::<Seq<char>>::empty());
        assert(texts(r@) =~= Seq::<Seq<char>>::empty());
    }
    while i < names.len()
        invariant
            i <= names.len(),
            all == texts(names@),
            texts(r@) == not_in(all.take(i as int), texts(skip@)),
        decreases names.len() - i,
    {
        proof {
            assert(all.take(i + 1).drop_last() =~= all.take(i as int));
            assert(all.take(i + 1).last() == names@[i as int]@);
        }
        if !member(skip, names[i].as_str()) {
            push_text(&mut r, names[i].clone());
        }
        i = i + 1;
    }
    proof {
        assert(all.take(i as int) =~= all);
    }
    r
}

// ---------------------------------------------------------------------------
// The chat adapter
// ---------------------------------------------------------------------------

/// A feature of a model that gives an output field without text.
#[derive(Debug, Clone)]
pub enum NativeResponseType {
    /// Citations, for the named output field.
    Citations { field_name: String },
}

/// Formats prompts with field markers and reads the fields in replies.
#[derive(Debug)]
pub struct ChatAdapter {
    /// Output fields that come from the model's own features.
    pub native_response_types: Vec<NativeResponseType>,
}

/// The name of the field that a native response type fills.
pub open spec fn native_name(t: NativeResponseType) -> Seq<char> {
    match t {
        NativeResponseType::Citations { field_name } => field_name@,
    }
}

impl ChatAdapter {
    /// An adapter without native response types.
    pub fn new() -> (r: Self)
        ensures
            r.native_response_types@ == Seq::<NativeResponseType>::empty(),
    {
        ChatAdapter { native_response_types: Vec::new() }
    }

    /// An adapter with native response types.
    pub fn with_native_response_types(
        native_response_types: Vec<NativeResponseType>,
    ) -> (r: Self)
        ensures
            r.native_response_types == native_response_types,
    {
        ChatAdapter { native_response_types }
    }

    /// The text that describes fields, one numbered line for each.
    pub fn format_field_description_string(&self, fields: &Vec<(&String, &FieldDef)>) -> (r: String)
        ensures
            r@ == trim_end_of(
                join_of(
                    Seq::new(
                        fields@.len(),
                        |i: int|
                            desc_line((i + 1) as nat, fields@[i].0@, fields@[i].1@.description),
                    ),
                    "\n"@,
                ),
            ),
    {
        let ghost want = Seq::new(
            fields@.len(),
            |i: int| desc_line((i + 1) as nat, fields@[i].0@, fields@[i].1@.description),
        );
        let mut lines: Vec<String> = Vec::new();
        let mut i: usize = 0;
        while i < fields.len()
            invariant
                i <= fields.len(),
                want == Seq::new(
                    fields@.len(),
                    |i: int| desc_line((i + 1) as nat, fields@[i].0@, fields@[i].1@.description),
                ),
                texts(lines@) == want.take(i as int),
            decreases fields.len() - i,
        {
            let (name, field) = fields[i];
            let mut line = dec_size(i + 1);
            line.append(". `");
            line.append(name.as_str());
            line.append("` (str): ");
            match &field.description {
                Some(d) => {
                    line.append(d.as_str());
                },
                None => {
                    proof {
                        assert(line@ + Seq::<char>::empty() =~= line@);
                    }
                },
            }
            push_text(&mut lines, line);
            proof {
                assert(want.take(i + 1) =~= want.take(i as int).push(want[i as int]));
            }
            i = i + 1;
        }
        proof {
            assert(want.take(i as int) =~= want);
        }
        trim_end(join(&lines, "\n").as_str())
    }
}

impl Default for ChatAdapter {
    fn default() -> (r: Self)
        ensures
            r.native_response_types@ == Seq::<NativeResponseType>::empty(),
    {
        ChatAdapter::new()
    }
}

// ---------------------------------------------------------------------------
// Prompts
// ---------------------------------------------------------------------------

/// What named fields say.
pub open spec fn pair_fields(v: Seq<(&String, &FieldDef)>) -> Seq<FieldSpec> {
    v.map_values(|e: (&String, &FieldDef)| e.1@)
}

/// Every field goes under its own name.
pub open spec fn pairs_ok(v: Seq<(&String, &FieldDef)>) -> bool {
    forall|i: int| 0 <= i < v.len() ==> (#[trigger] v[i]).0@ == v[i].1@.name
}

/// For each field that the example has: its marker, its value, and `tail`.
pub open spec fn field_parts(
    fields: Seq<FieldSpec>,
    e: ExampleSpec,
    tail: Seq<Seq<char>>,
) -> Seq<Seq<char>>
    decreases fields.len(),
{
    if fields.len() == 0 {
        Seq::empty()
    } else {
        let front = field_parts(fields.drop_last(), e, tail);
        let name = fields.last().name;
        if e.store.contains_key(name) {
            front + seq![marker_of(name), shown(e.store[name])] + tail
        } else {
            front
        }
    }
}

/// The template of a reply: for each field its marker, its name in braces and a
/// blank line.
pub open spec fn template_parts(fields: Seq<FieldSpec>) -> Seq<Seq<char>>
    decreases fields.len(),
{
    if fields.len() == 0 {
        Seq::empty()
    } else {
        let name = fields.last().name;
        template_parts(fields.drop_last()) + seq![
            marker_of(name),
            "{"@ + name + "}"@,
            Seq::empty(),
        ]
    }
}

/// The sentence before the template.
pub open spec fn structure_sentence() -> Seq<char> {
    "All interactions will be structured in the following way, with the appropriate values filled in."@
}

/// The lines that describe the fields of a task.
pub open spec fn header_parts(s: SigSpec, outputs: Seq<FieldSpec>) -> Seq<Seq<char>> {
    seq![
        "Your input fields are:"@,
        field_descriptions(s.inputs()),
        "Your output fields are:"@,
        field_descriptions(outputs),
        structure_sentence(),
        Seq::empty(),
    ]
}

/// The system message of the chat adapter.
pub open spec fn chat_system(s: SigSpec, skip: Seq<Seq<char>>) -> Seq<char> {
    join_of(
        header_parts(s, fields_not_in(s.outputs(), skip)) + template_parts(
            fields_not_in(s.fields, skip),
        ) + seq![completed_marker(), objective_of(s, not_in(names(s.outputs()), skip))],
        "\n"@,
    )
}

/// The sentence that asks for the output fields.
pub open spec fn output_requirements(outputs: Seq<Seq<char>>) -> Seq<char> {
    if outputs.len() == 0 {
        "Respond with the marker for `[[ ## completed ## ]]`."@
    } else {
        "Respond with the corresponding output fields, starting with the field `[[ ## "@
            + outputs[0] + " ## ]]`"@ + then_fields(outputs.skip(1))
            + ", and then ending with the marker for `[[ ## completed ## ]]`."@
    }
}

/// The further output fields, each after a comma.
pub open spec fn then_fields(outputs: Seq<Seq<char>>) -> Seq<char>
    decreases outputs.len(),
{
    if outputs.len() == 0 {
        Seq::empty()
    } else {
        then_fields(outputs.drop_last()) + ", then `[[ ## "@ + outputs.last() + " ## ]]`"@
    }
}

/// The user message of the chat adapter.
pub open spec fn chat_user(s: SigSpec, e: ExampleSpec, skip: Seq<Seq<char>>) -> Seq<char> {
    join_of(
        field_parts(s.inputs(), e, seq![Seq::empty()]).push(
            output_requirements(not_in(names(s.outputs()), skip)),
        ),
        "\n"@,
    )
}

/// The user's side of a demonstration.
pub open spec fn chat_demo_user(s: SigSpec, e: ExampleSpec) -> Seq<char> {
    join_of(field_parts(s.inputs(), e, Seq::empty()), "\n"@)
}

/// The model's side of a demonstration.
pub open spec fn chat_demo_assistant(s: SigSpec, e: ExampleSpec, skip: Seq<Seq<char>>) -> Seq<
    char,
> {
    join_of(
        field_parts(fields_not_in(s.outputs(), skip), e, Seq::empty()) + seq![
            Seq::empty(),
            completed_marker(),
            Seq::empty(),
        ],
        "\n"@,
    )
}

/// The messages of demonstrations.
pub open spec fn chat_demos(s: SigSpec, demos: Seq<ExampleSpec>, skip: Seq<Seq<char>>) -> Seq<
    MessageSpec,
>
    decreases demos.len(),
{
    if demos.len() == 0 {
        Seq::empty()
    } else {
        chat_demos(s, demos.drop_last(), skip).push(
            MessageSpec::user(chat_demo_user(s, demos.last())),
        ).push(MessageSpec::assistant(chat_demo_assistant(s, demos.last(), skip)))
    }
}

/// The messages of a prompt: the system, the demonstrations, the user.
pub open spec fn chat_messages(
    s: SigSpec,
    e: ExampleSpec,
    demos: Seq<ExampleSpec>,
    skip: Seq<Seq<char>>,
) -> Seq<MessageSpec> {
    (seq![MessageSpec::system(chat_system(s, skip))] + chat_demos(s, demos, skip)).push(
        MessageSpec::user(chat_user(s, e, skip)),
    )
}

/// The fields whose names are not in a list.
pub(crate) fn drop_fields<'a>(
    fields: Vec<(&'a String, &'a FieldDef)>,
    skip: &Vec<String>,
) -> (r: Vec<(&'a String, &'a FieldDef)>)
    requires
        pairs_ok(fields@),
    ensures
        pairs_ok(r@),
        pair_fields(r@) == fields_not_in(pair_fields(fields@), texts(skip@)),
{
    let ghost all = pair_fields(fields@);
    let mut r: Vec<(&String, &FieldDef)> = Vec::new();
    let mut i: usize = 0;
    proof {
        assert(all.take(0) =~= Seq::<FieldSpec>::empty());
    }
    while i < fields.len()
        invariant
            i <= fields.len(),
            all == pair_fields(fields@),
            pairs_ok(fields@),
            pairs_ok(r@),
            pair_fields(r@) =~= fields_not_in(all.take(i as int), texts(skip@)),
        decreases fields.len() - i,
    {
        proof {
            assert(all.take(i + 1).drop_last() =~= all.take(i as int));
            assert(all.take(i + 1).last() == fields@[i as int].1@);
            assert(fields@[i as int].0@ == fields@[i as int].1@.name);
        }
        let (k, f) = fields[i];
        if !member(skip, k.as_str()) {
            r.push((k, f));
        }
        i = i + 1;
    }
    proof {
        assert(all.take(i as int) =~= all);
    }
    r
}

/// Appends, for each field that the example has, its marker and its value, and a
/// blank line if asked.
pub(crate) fn push_field_parts(
    parts: &mut Vec<String>,
    fields: &Vec<(&String, &FieldDef)>,
    e: &Example,
    blank: bool,
)
    requires
        pairs_ok(fields@),
    ensures
        texts(final(parts)@) == texts(old(parts)@) + field_parts(
            pair_fields(fields@),
            e@,
            if blank {
                seq![Seq::empty()]
            } else {
                Seq::empty()
            },
        ),
{
    let ghost before = texts(parts@);
    let ghost all = pair_fields(fields@);
    let ghost tail: Seq<Seq<char>> = if blank {
        seq![Seq::empty()]
    } else {
        Seq::empty()
    };
    let mut i: usize = 0;
    proof {
        assert(all.take(0) =~= Seq::<FieldSpec>::empty());
        assert(before + field_parts(all.take(0), e@, tail) =~= before);
    }
    while i < fields.len()
        invariant
            i <= fields.len(),
            all == pair_fields(fields@),
            pairs_ok(fields@),
            tail == if blank {
                seq![Seq::<char>::empty()]
            } else {
                Seq::empty()
            },
            texts(parts@) == before + field_parts(all.take(i as int), e@, tail),
        decreases fields.len() - i,
    {
        proof {
            assert(all.take(i + 1).drop_last() =~= all.take(i as int));
            assert(all.take(i + 1).last() == fields@[i as int].1@);
            assert(fields@[i as int].0@ == fields@[i as int].1@.name);
        }
        let (name, _) = fields[i];
        let ghost sofar = texts(parts@);
        if let Some(v) = e.get(name.as_str()) {
            push_text(parts, marker(name.as_str()));
            push_text(parts, v.to_text());
            if blank {
                push_text(parts, String::new());
            }
            proof {
                assert(texts(parts@) =~= sofar + (seq![marker_of(name@), shown(e@.store[name@])]
                    + tail));
                let front = field_parts(all.take(i as int), e@, tail);
                assert(before + (front + seq![marker_of(name@), shown(e@.store[name@])] + tail)
                    =~= before + front + (seq![marker_of(name@), shown(e@.store[name@])] + tail));
            }
        }
        i = i + 1;
    }
    proof {
        assert(all.take(i as int) =~= all);
    }
}

/// Appends the template of a field: its marker, its name in braces and a blank
/// line.
pub(crate) fn push_template(parts: &mut Vec<String>, fields: &Vec<(&String, &FieldDef)>)
    requires
        pairs_ok(fields@),
    ensures
        texts(final(parts)@) == texts(old(parts)@) + template_parts(pair_fields(fields@)),
{
    let ghost before = texts(parts@);
    let ghost all = pair_fields(fields@);
    let mut i: usize = 0;
    proof {
        assert(all.take(0) =~= Seq::<FieldSpec>::empty());
        assert(before + template_parts(all.take(0)) =~= before);
    }
    while i < fields.len()
        invariant
            i <= fields.len(),
            all == pair_fields(fields@),
            pairs_ok(fields@),
            texts(parts@) == before + template_parts(all.take(i as int)),
        decreases fields.len() - i,
    {
        proof {
            assert(all.take(i + 1).drop_last() =~= all.take(i as int));
            assert(all.take(i + 1).last() == fields@[i as int].1@);
            assert(fields@[i as int].0@ == fields@[i as int].1@.name);
        }
        let (name, _) = fields[i];
        let ghost sofar = texts(parts@);
        push_text(parts, marker(name.as_str()));
        push_text(parts, around("{", name.as_str(), "}"));
        push_text(parts, String::new());
        proof {
            let item = seq![marker_of(name@), "{"@ + name@ + "}"@, Seq::empty()];
            assert(texts(parts@) =~= sofar + item);
            let front = template_parts(all.take(i as int));
            assert(before + (front + item) =~= before + front + item);
        }
        i = i + 1;
    }
    proof {
        assert(all.take(i as int) =~= all);
    }
}

/// The fields of a signature with their names, in order.
pub(crate) fn all_fields(sig: &Signature) -> (r: Vec<(&String, &FieldDef)>)
    ensures
        pairs_ok(r@),
        pair_fields(r@) == sig@.fields,
{
    let n: usize = sig.len();
    let mut r: Vec<(&String, &FieldDef)> = Vec::new();
    let mut i: usize = 0;
    while i < n
        invariant
            n == sig@.fields.len(),
            i <= n,
            pairs_ok(r@),
            pair_fields(r@) =~= sig@.fields.take(i as int),
        decreases n - i,
    {
        let f = sig.field_at(i);
        let ghost sofar = r@;
        r.push((&f.name, f));
        proof {
            let want = sig@.fields.take(i + 1);
            assert(want =~= sig@.fields.take(i as int).push(f@));
            assert(pair_fields(r@) =~= pair_fields(sofar).push(f@));
        }
        i = i + 1;
    }
    proof {
        assert(sig@.fields.take(i as int) =~= sig@.fields);
    }
    r
}

/// Named fields are described as their fields are.
pub proof fn lemma_descriptions(v: Seq<(&String, &FieldDef)>)
    requires
        pairs_ok(v),
    ensures
        Seq::new(v.len(), |i: int| desc_line((i + 1) as nat, v[i].0@, v[i].1@.description))
            == desc_lines(pair_fields(v)),
{
    let a = Seq::new(v.len(), |i: int| desc_line((i + 1) as nat, v[i].0@, v[i].1@.description));
    let b = desc_lines(pair_fields(v));
    assert forall|i: int| 0 <= i < v.len() implies a[i] == b[i] by {
        assert(v[i].0@ == v[i].1@.name);
    }
    assert(a =~= b);
}

impl ChatAdapter {
    /// The text that describes fields of a signature.
    pub(crate) fn describe(&self, fields: &Vec<(&String, &FieldDef)>) -> (r: String)
        requires
            pairs_ok(fields@),
        ensures
            r@ == field_descriptions(pair_fields(fields@)),
    {
        proof {
            lemma_descriptions(fields@);
        }
        self.format_field_description_string(fields)
    }

    /// The lines that describe the fields of a task.
    pub(crate) fn header(&self, sig: &Signature, outputs: &Vec<(&String, &FieldDef)>) -> (r: Vec<
        String,
    >)
        requires
            pairs_ok(outputs@),
        ensures
            texts(r@) == header_parts(sig@, pair_fields(outputs@)),
    {
        let mut parts: Vec<String> = Vec::new();
        push_text(&mut parts, "Your input fields are:".to_string());
        push_text(&mut parts, self.describe(&sig.input_fields()));
        push_text(&mut parts, "Your output fields are:".to_string());
        push_text(&mut parts, self.describe(outputs));
        push_text(
            &mut parts,
            "All interactions will be structured in the following way, with the appropriate values filled in.".to_string(),
        );
        push_text(&mut parts, String::new());
        proof {
            assert(texts(parts@) =~= header_parts(sig@, pair_fields(outputs@)));
        }
        parts
    }

    /// The sentence that asks for the output fields.
    pub fn format_output_requirements(
        &self,
        signature: &Signature,
        skip_output_fields: &Vec<String>,
    ) -> (r: String)
        ensures
            r@ == output_requirements(
                not_in(names(signature@.outputs()), texts(skip_output_fields@)),
            ),
    {
        let outputs = drop_listed(&signature.output_names(), skip_output_fields);
        if outputs.len() == 0 {
            return "Respond with the marker for `[[ ## completed ## ]]`.".to_string();
        }
        let ghost all = texts(outputs@);
        let mut r =
            "Respond with the corresponding output fields, starting with the field `[[ ## ".to_string();
        r.append(outputs[0].as_str());
        r.append(" ## ]]`");
        let ghost start = r@;
        let mut i: usize = 1;
        proof {
            assert(all.skip(1).take(0) =~= Seq::<Seq<char>>::empty());
            assert(start + then_fields(all.skip(1).take(0)) =~= start);
        }
        while i < outputs.len()
            invariant
                1 <= i <= outputs.len(),
                all == texts(outputs@),
                r@ == start + then_fields(all.skip(1).take(i - 1)),
            decreases outputs.len() - i,
        {
            let ghost sofar = r@;
            r.append(", then `[[ ## ");
            r.append(outputs[i].as_str());
            r.append(" ## ]]`");
            proof {
                let a = all.skip(1).take(i - 1);
                let b = all.skip(1).take(i as int);
                assert(b.drop_last() =~= a);
                assert(b.last() == outputs@[i as int]@);
                assert(start + then_fields(b) =~= start + then_fields(a) + ", then `[[ ## "@
                    + outputs@[i as int]@ + " ## ]]`"@);
            }
            i = i + 1;
        }
        proof {
            assert(all.skip(1).take(i - 1) =~= all.skip(1));
        }
        r.append(", and then ending with the marker for `[[ ## completed ## ]]`.");
        r
    }

    /// The system message: the fields, the template and the objective.
    pub fn format_system_message(
        &self,
        signature: &Signature,
        skip_output_fields: &Vec<String>,
    ) -> (r: String)
        ensures
            r@ == chat_system(signature@, texts(skip_output_fields@)),
    {
        let ghost skip = texts(skip_output_fields@);
        let outputs = drop_fields(signature.output_fields(), skip_output_fields);
        let mut parts = self.header(signature, &outputs);
        let fields = drop_fields(all_fields(signature), skip_output_fields);
        push_template(&mut parts, &fields);
        let visible = drop_listed(&signature.output_names(), skip_output_fields);
        let ghost sofar = texts(parts@);
        push_text(&mut parts, "[[ ## completed ## ]]".to_string());
        push_text(&mut parts, objective(signature, &visible));
        proof {
            assert(texts(parts@) =~= sofar + seq![
                completed_marker(),
                objective_of(signature@, not_in(names(signature@.outputs()), skip)),
            ]);
        }
        join(&parts, "\n")
    }

    /// The user message: the inputs and what is asked for.
    pub fn format_user_message(
        &self,
        signature: &Signature,
        inputs: &Example,
        skip_output_fields: &Vec<String>,
    ) -> (r: String)
        ensures
            r@ == chat_user(signature@, inputs@, texts(skip_output_fields@)),
    {
        let mut parts: Vec<String> = Vec::new();
        push_field_parts(&mut parts, &signature.input_fields(), inputs, true);
        proof {
            let want = field_parts(signature@.inputs(), inputs@, seq![Seq::empty()]);
            assert(texts(parts@) =~= want);
        }
        push_text(
            &mut parts,
            self.format_output_requirements(signature, skip_output_fields),
        );
        join(&parts, "\n")
    }

    /// The messages of a prompt: the system message, a pair for each
    /// demonstration, and the user message.
    pub fn format_messages(
        &self,
        signature: &Signature,
        inputs: &Example,
        demos: &Vec<Example>,
        skip_output_fields: &Vec<String>,
    ) -> (r: Vec<Message>)
        ensures
            message_list(r@) == chat_messages(
                signature@,
                inputs@,
                example_list(demos@),
                texts(skip_output_fields@),
            ),
    {
        let ghost s = signature@;
        let ghost skip = texts(skip_output_fields@);
        let ghost all = example_list(demos@);
        let ghost first = seq![MessageSpec::system(chat_system(s, skip))];
        let mut messages: Vec<Message> = Vec::new();
        push_message(
            &mut messages,
            Message::system(self.format_system_message(signature, skip_output_fields).as_str()),
        );
        let mut i: usize = 0;
        proof {
            lemma_example_list(demos@);
            assert(all.take(0) =~= Seq::<ExampleSpec>::empty());
            assert(message_list(messages@) =~= first + chat_demos(s, all.take(0), skip));
        }
        while i < demos.len()
            invariant
                i <= demos.len(),
                s == signature@,
                skip == texts(skip_output_fields@),
                all == example_list(demos@),
                all.len() == demos@.len(),
                forall|k: int| 0 <= k < demos@.len() ==> #[trigger] all[k] == demos@[k]@,
                message_list(messages@) == first + chat_demos(s, all.take(i as int), skip),
            decreases demos.len() - i,
        {
            let ghost sofar = message_list(messages@);
            let ghost demo = demos@[i as int]@;
            proof {
                assert(all.take(i + 1).drop_last() =~= all.take(i as int));
                assert(all.take(i + 1).last() == demo);
            }
            let mut user: Vec<String> = Vec::new();
            push_field_parts(&mut user, &signature.input_fields(), &demos[i], false);
            proof {
                assert(texts(user@) =~= field_parts(s.inputs(), demo, Seq::empty()));
            }
            push_message(&mut messages, Message::user(join(&user, "\n").as_str()));
            let mut reply: Vec<String> = Vec::new();
            let outputs = drop_fields(signature.output_fields(), skip_output_fields);
            push_field_parts(&mut reply, &outputs, &demos[i], false);
            push_text(&mut reply, String::new());
            push_text(&mut reply, "[[ ## completed ## ]]".to_string());
            push_text(&mut reply, String::new());
            proof {
                assert(texts(reply@) =~= field_parts(
                    fields_not_in(s.outputs(), skip),
                    demo,
                    Seq::empty(),
                ) + seq![Seq::empty(), completed_marker(), Seq::empty()]);
            }
            push_message(&mut messages, Message::assistant(join(&reply, "\n").as_str()));
            proof {
                let a = MessageSpec::user(chat_demo_user(s, demo));
                let b = MessageSpec::assistant(chat_demo_assistant(s, demo, skip));
                let front = chat_demos(s, all.take(i as int), skip);
                assert((first + front).push(a).push(b) =~= first + front.push(a).push(b));
            }
            i = i + 1;
        }
        proof {
            assert(all.take(i as int) =~= all);
        }
        push_message(
            &mut messages,
            Message::user(
                self.format_user_message(signature, inputs, skip_output_fields).as_str(),
            ),
        );
        messages
    }
}

// ---------------------------------------------------------------------------
// Replies
// ---------------------------------------------------------------------------

/// Where the next marker begins.
pub open spec fn next_marker_of(s: Seq<char>) -> Option<int> {
    match find_first(s, "[[ ## "@) {
        Some(p) => if has_text(s.skip(p), " ## ]]"@) {
            Some(p)
        } else {
            None
        },
        None => None,
    }
}

/// What follows a marker, up to the next one.
pub open spec fn up_to_marker(s: Seq<char>) -> Seq<char> {
    match next_marker_of(s) {
        Some(p) => s.take(p),
        None => s,
    }
}

/// What a reply says under the marker of a field.
pub open spec fn chat_section(output: Seq<char>, name: Seq<char>) -> Option<Seq<char>> {
    match find_first(output, marker_of(name)) {
        Some(p) => Some(trim_of(up_to_marker(output.skip(p + marker_of(name).len())))),
        None => None,
    }
}

/// The fields of a reply that have a marker.
pub open spec fn chat_marked(output: Seq<char>, names: Seq<Seq<char>>) -> Seq<
    (Seq<char>, ValueSpec),
>
    decreases names.len(),
{
    if names.len() == 0 {
        Seq::empty()
    } else {
        let front = chat_marked(output, names.drop_last());
        match chat_section(output, names.last()) {
            Some(v) => set_pair(front, names.last(), ValueSpec::Text(v)),
            None => front,
        }
    }
}

/// The fields found in a reply. A reply in which none was found is the first
/// field.
pub open spec fn or_whole(
    found: Seq<(Seq<char>, ValueSpec)>,
    output: Seq<char>,
    names: Seq<Seq<char>>,
) -> Seq<(Seq<char>, ValueSpec)> {
    if found.len() == 0 && names.len() > 0 {
        seq![(names[0], ValueSpec::Text(trim_of(output)))]
    } else {
        found
    }
}

/// The fields of a reply. A reply without any marker is the first field.
pub open spec fn chat_fields(output: Seq<char>, names: Seq<Seq<char>>) -> Seq<
    (Seq<char>, ValueSpec),
> {
    or_whole(chat_marked(output, names), output, names)
}

/// The names of the output fields that the model fills natively.
pub open spec fn native_names(types: Seq<NativeResponseType>, outputs: Seq<Seq<char>>) -> Seq<
    Seq<char>,
>
    decreases types.len(),
{
    if types.len() == 0 {
        Seq::empty()
    } else if outputs.contains(native_name(types.last())) {
        native_names(types.drop_last(), outputs).push(native_name(types.last()))
    } else {
        native_names(types.drop_last(), outputs)
    }
}

/// Fields with the native ones set to a value.
pub open spec fn native_filled(
    fields: Seq<(Seq<char>, ValueSpec)>,
    types: Seq<NativeResponseType>,
    native: Seq<Seq<char>>,
    v: ValueSpec,
) -> Seq<(Seq<char>, ValueSpec)>
    decreases types.len(),
{
    if types.len() == 0 {
        fields
    } else {
        let front = native_filled(fields, types.drop_last(), native, v);
        if native.contains(native_name(types.last())) {
            set_pair(front, native_name(types.last()), v)
        } else {
            front
        }
    }
}

/// Where the next marker begins, in bytes.
pub fn find_next_marker(s: &str) -> (r: Option<usize>)
    ensures
        match r {
            Some(n) => next_marker_of(s@) matches Some(p) && 0 <= p <= s@.len() && n
                == byte_len_of(s@.take(p)),
            None => next_marker_of(s@) is None,
        },
{
    let v = chars_of(s);
    let open = chars_of("[[ ## ");
    let n: usize = v.len();
    match find_chars(&v, &open, 0) {
        Some(p) => {
            let rest = slice_text(&v, p, n);
            proof {
                assert(rest@ =~= s@.skip(p as int));
            }
            if contains(rest.as_str(), " ## ]]") {
                let before = slice_text(&v, 0, p);
                proof {
                    assert(before@ =~= s@.take(p as int));
                }
                Some(byte_len(before.as_str()))
            } else {
                None
            }
        },
        None => None,
    }
}

/// What a reply says under the marker of a field.
fn section(output: &str, name: &str) -> (r: Option<String>)
    ensures
        match r {
            Some(v) => chat_section(output@, name@) == Some(v@),
            None => chat_section(output@, name@) is None,
        },
{
    let v = chars_of(output);
    let m = chars_of(marker(name).as_str());
    let n: usize = v.len();
    match find_chars(&v, &m, 0) {
        Some(p) => {
            let start: usize = p + m.len();
            let rest = slice_text(&v, start, n);
            proof {
                assert(rest@ =~= output@.skip(p + m@.len()));
            }
            match find_next_marker(rest.as_str()) {
                Some(q) => {
                    proof {
                        lemma_byte_cut(rest@, next_marker_of(rest@)->Some_0);
                    }
                    let cut = byte_prefix(rest.as_str(), q);
                    Some(trim(cut.as_str()))
                },
                None => Some(trim(rest.as_str())),
            }
        },
        None => None,
    }
}

/// Makes a reply in which no field was found the first field.
pub(crate) fn fill_first(result: &mut StrMap<Value>, wanted: &Vec<String>, output: &str)
    ensures
        value_object(*final(result)) == or_whole(
            value_object(*old(result)),
            output@,
            texts(wanted@),
        ),
{
    proof {
        use_type_invariant(&*result);
        lemma_value_object(*result);
        result.lemma_shape();
    }
    if result.is_empty() && wanted.len() > 0 {
        put_value(result, wanted[0].clone(), Value::String(trim(output)));
        proof {
            assert(texts(wanted@)[0] == wanted@[0]@);
            assert(value_object(*result) =~= seq![
                (texts(wanted@)[0], ValueSpec::Text(trim_of(output@))),
            ]);
        }
    }
}

/// The results of a call, of which there must be one.
pub fn some_results(results: Vec<StrMap<Value>>) -> (r: Result<Vec<StrMap<Value>>>)
    ensures
        match r {
            Ok(v) => v == results && results@.len() > 0,
            Err(e) => results@.len() == 0 && is_lm_error(e, "No responses from LM"@),
        },
{
    if results.len() == 0 {
        Err(DspyError::LMError("No responses from LM".to_string()))
    } else {
        Ok(results)
    }
}

impl ChatAdapter {
    /// The names of the output fields that the model fills natively.
    pub fn compute_native_field_names(&self, signature: &Signature) -> (r: Vec<String>)
        ensures
            texts(r@) == native_names(self.native_response_types@, names(signature@.outputs())),
    {
        let outputs = signature.output_names();
        let ghost all = self.native_response_types@;
        let mut r: Vec<String> = Vec::new();
        let mut i: usize = 0;
        proof {
            assert(all.take(0) =~= Seq::<NativeResponseType>::empty());
            assert(texts(r@) =~= Seq::<Seq<char>>::empty());
        }
        while i < self.native_response_types.len()
            invariant
                i <= self.native_response_types.len(),
                all == self.native_response_types@,
                texts(outputs@) == names(signature@.outputs()),
                texts(r@) == native_names(all.take(i as int), names(signature@.outputs())),
            decreases self.native_response_types.len() - i,
        {
            proof {
                assert(all.take(i + 1).drop_last() =~= all.take(i as int));
                assert(all.take(i + 1).last() == all[i as int]);
            }
            match &self.native_response_types[i] {
                NativeResponseType::Citations { field_name } => {
                    if member(&outputs, field_name.as_str()) {
                        push_text(&mut r, field_name.clone());
                    }
                },
            }
            i = i + 1;
        }
        proof {
            assert(all.take(i as int) =~= all);
        }
        r
    }

    /// Sets the native fields of a reply to the citations that came with it.
    pub fn postprocess_native_types(
        &self,
        parsed: &mut StrMap<Value>,
        citations: Option<&Vec<Json>>,
        native_field_names: &Vec<String>,
    )
        ensures
            value_object(*final(parsed)) == match citations {
                Some(data) => native_filled(
                    value_object(*old(parsed)),
                    self.native_response_types@,
                    texts(native_field_names@),
                    ValueSpec::Text(citations_text(citations_of(json_list(data@)).len())),
                ),
                None => value_object(*old(parsed)),
            },
    {
        if let Some(data) = citations {
            let cited = Citations::from_json_list(data);
            let text = cited.to_text();
            let ghost all = self.native_response_types@;
            let ghost before = value_object(*parsed);
            let ghost v = ValueSpec::Text(text@);
            let ghost native = texts(native_field_names@);
            let mut i: usize = 0;
            proof {
                assert(citation_list(cited.citations@).len() == cited.citations@.len());
                assert(all.take(0) =~= Seq::<NativeResponseType>::empty());
            }
            while i < self.native_response_types.len()
                invariant
                    i <= self.native_response_types.len(),
                    all == self.native_response_types@,
                    native == texts(native_field_names@),
                    v == ValueSpec::Text(text@),
                    value_object(*parsed) == native_filled(before, all.take(i as int), native, v),
                decreases self.native_response_types.len() - i,
            {
                proof {
                    assert(all.take(i + 1).drop_last() =~= all.take(i as int));
                    assert(all.take(i + 1).last() == all[i as int]);
                }
                match &self.native_response_types[i] {
                    NativeResponseType::Citations { field_name } => {
                        if member(native_field_names, field_name.as_str()) {
                            put_value(
                                parsed,
                                field_name.clone(),
                                Value::String(text.clone()),
                            );
                        }
                    },
                }
                i = i + 1;
            }
            proof {
                assert(all.take(i as int) =~= all);
            }
        }
    }

    /// The output fields of a reply: those under their markers, and the native
    /// ones from the citations that came with it.
    pub fn parse_reply(
        &self,
        output: &str,
        citations: Option<&Vec<Json>>,
        signature: &Signature,
    ) -> (r: Result<StrMap<Value>>)
        ensures
            ({
                let outputs = names(signature@.outputs());
                let types = self.native_response_types@;
                let native = native_names(types, outputs);
                let found = chat_fields(output@, not_in(outputs, native));
                r matches Ok(m) && value_object(m) == match citations {
                    Some(data) => native_filled(
                        found,
                        types,
                        native,
                        ValueSpec::Text(citations_text(citations_of(json_list(data@)).len())),
                    ),
                    None => found,
                }
            }),
    {
        let native = self.compute_native_field_names(signature);
        match self.parse_output(output, signature, &native) {
            Ok(m) => {
                let mut parsed = m;
                self.postprocess_native_types(&mut parsed, citations, &native);
                Ok(parsed)
            },
            Err(e) => Err(e),
        }
    }

    /// The output fields of a reply, each the text under its marker. A reply
    /// without any of their markers is the first field.
    pub fn parse_output(
        &self,
        output: &str,
        signature: &Signature,
        skip_output_fields: &Vec<String>,
    ) -> (r: Result<StrMap<Value>>)
        ensures
            r matches Ok(m) && value_object(m) == chat_fields(
                output@,
                not_in(names(signature@.outputs()), texts(skip_output_fields@)),
            ),
    {
        let wanted = drop_listed(&signature.output_names(), skip_output_fields);
        let ghost all = texts(wanted@);
        let mut result = no_fields();
        let mut i: usize = 0;
        proof {
            assert(all.take(0) =~= Seq::<Seq<char>>::empty());
        }
        while i < wanted.len()
            invariant
                i <= wanted.len(),
                all == texts(wanted@),
                value_object(result) == chat_marked(output@, all.take(i as int)),
            decreases wanted.len() - i,
        {
            proof {
                assert(all.take(i + 1).drop_last() =~= all.take(i as int));
                assert(all.take(i + 1).last() == wanted@[i as int]@);
            }
            if let Some(v) = section(output, wanted[i].as_str()) {
                put_value(&mut result, wanted[i].clone(), Value::String(v));
            }
            i = i + 1;
        }
        proof {
            assert(all.take(i as int) =~= all);
        }
        fill_first(&mut result, &wanted, output);
        Ok(result)
    }
}

// ---------------------------------------------------------------------------
// Laws
// ---------------------------------------------------------------------------

/// A text with the sections of fields before it.
pub open spec fn sections(fields: Seq<FieldSpec>, e: ExampleSpec, rest: Seq<char>) -> Seq<char>
    decreases fields.len(),
{
    if fields.len() == 0 {
        rest
    } else {
        section_text(fields[0], e) + sections(fields.skip(1), e, rest)
    }
}

/// The section of a field: its marker and its value, a line each.
pub open spec fn section_text(f: FieldSpec, e: ExampleSpec) -> Seq<char> {
    marker_of(f.name) + "\n"@ + shown(e.store[f.name]) + "\n"@
}

/// Where the section of a field begins.
pub open spec fn section_start(fields: Seq<FieldSpec>, e: ExampleSpec, i: int) -> int
    decreases i,
{
    if i <= 0 {
        0
    } else {
        section_text(fields[0], e).len() + section_start(fields.skip(1), e, i - 1)
    }
}

/// A field that a reply can carry: it has a value without a marker's opening in
/// it, and a name on one line that makes a marker with one opening.
pub open spec fn can_carry(f: FieldSpec, e: ExampleSpec) -> bool {
    &&& e.store.contains_key(f.name)
    &&& !has_text(shown(e.store[f.name]), "[[ ## "@)
    &&& !f.name.contains('\n')
    &&& find_from(marker_of(f.name), "[[ ## "@, 1) is None
}

/// Fields that a reply can carry side by side: no marker is the start of an
/// earlier one.
pub open spec fn carried(fields: Seq<FieldSpec>, e: ExampleSpec) -> bool {
    &&& forall|i: int| 0 <= i < fields.len() ==> can_carry(#[trigger] fields[i], e)
    &&& forall|i: int, j: int|
        0 <= j < i < fields.len() ==> !begins_with(
            #[trigger] marker_of(fields[j].name),
            #[trigger] marker_of(fields[i].name),
        )
}

proof fn lemma_literals()
    ensures
        "[[ ## "@.len() == 6,
        "\n"@ == seq!['\n'],
        forall|k: int| 0 <= k < 6 ==> "[[ ## "@[k] != '\n',
        completed_marker() == marker_of("completed"@),
        !"completed"@.contains('\n'),
        is_white('\n'),
{
    reveal_strlit("[[ ## ");
    reveal_strlit(" ## ]]");
    reveal_strlit("\n");
    reveal_strlit("completed");
    reveal_strlit("[[ ## completed ## ]]");
    assert("\n"@ =~= seq!['\n']);
    assert(completed_marker() =~= marker_of("completed"@));
    assert forall|i: int| 0 <= i < "completed"@.len() implies "completed"@[i] != '\n' by {}
}

/// An opening does not reach over the end of a line.
proof fn lemma_no_opening(s: Seq<char>, rest: Seq<char>, from: int)
    requires
        0 <= from,
        find_from(s, "[[ ## "@, from) is None,
    ensures
        forall|q: int|
            from <= q <= s.len() ==> !#[trigger] occurs_at(s + "\n"@ + rest, "[[ ## "@, q),
{
    lemma_literals();
    lemma_not_over_line(s, rest, "[[ ## "@, from);
    assert(s + "\n"@ + rest =~= s.push('\n') + rest);
}

/// Where a marker stands, an opening stands.
proof fn lemma_marker_opens(h: Seq<char>, name: Seq<char>, q: int)
    requires
        occurs_at(h, marker_of(name), q),
    ensures
        occurs_at(h, "[[ ## "@, q),
{
    let m = marker_of(name);
    let open = "[[ ## "@;
    assert(h.subrange(q, q + open.len()) =~= h.subrange(q, q + m.len()).subrange(
        0,
        open.len() as int,
    ));
    assert(m.subrange(0, open.len() as int) =~= open);
}

/// A name without a line break makes a marker without one.
proof fn lemma_marker_line(name: Seq<char>)
    requires
        !name.contains('\n'),
    ensures
        !marker_of(name).contains('\n'),
{
    reveal_strlit("[[ ## ");
    reveal_strlit(" ## ]]");
    let m = marker_of(name);
    assert forall|i: int| 0 <= i < m.len() implies m[i] != '\n' by {
        if 6 <= i < 6 + name.len() {
            assert(m[i] == name[i - 6]);
            assert(name.contains(name[i - 6]));
        }
    }
}

/// A marker does not stand in the section of another field.
proof fn lemma_not_in_section(f: FieldSpec, e: ExampleSpec, name: Seq<char>, tail: Seq<char>)
    requires
        can_carry(f, e),
        !name.contains('\n'),
        !begins_with(marker_of(f.name), marker_of(name)),
    ensures
        forall|q: int|
            0 <= q < section_text(f, e).len() ==> !#[trigger] occurs_at(
                section_text(f, e) + tail,
                marker_of(name),
                q,
            ),
{
    let m = marker_of(name);
    let fm = marker_of(f.name);
    let v = shown(e.store[f.name]);
    let first = section_text(f, e);
    let t = first + tail;
    let after = v + "\n"@ + tail;
    lemma_literals();
    lemma_marker_line(name);
    assert(find_from(v, "[[ ## "@, 0) is None);
    lemma_no_opening(fm, after, 1);
    lemma_no_opening(v, tail, 0);
    assert(t =~= fm + "\n"@ + after);
    assert forall|q: int| 0 <= q < first.len() implies !#[trigger] occurs_at(t, m, q) by {
        if occurs_at(t, m, q) {
            lemma_marker_opens(t, name, q);
            if q == 0 {
                if m.len() <= fm.len() {
                    assert(fm.subrange(0, m.len() as int) =~= t.subrange(0, m.len() as int));
                } else {
                    assert(t[fm.len() as int] == '\n');
                    assert(t.subrange(0, m.len() as int)[fm.len() as int] == '\n');
                    assert(m.contains('\n'));
                }
            } else if q <= fm.len() {
                assert(!occurs_at(fm + "\n"@ + after, "[[ ## "@, q));
            } else {
                let d = q - fm.len() - 1;
                assert(t.subrange(q, q + 6) =~= after.subrange(d, d + 6));
                assert(occurs_at(after, "[[ ## "@, d));
            }
        }
    }
}

/// The marker of a field is found where its section begins.
proof fn lemma_section_found(fields: Seq<FieldSpec>, e: ExampleSpec, rest: Seq<char>, i: int)
    requires
        carried(fields, e),
        0 <= i < fields.len(),
    ensures
        0 <= section_start(fields, e, i) <= sections(fields, e, rest).len(),
        find_first(sections(fields, e, rest), marker_of(fields[i].name)) == Some(
            section_start(fields, e, i),
        ),
        sections(fields, e, rest).skip(section_start(fields, e, i)) == sections(
            fields.skip(i),
            e,
            rest,
        ),
    decreases i,
{
    let m = marker_of(fields[i].name);
    let t = sections(fields, e, rest);
    if i == 0 {
        assert(fields.skip(0) =~= fields);
        assert(t.skip(0) =~= t);
        assert(t.subrange(0, m.len() as int) =~= m);
        lemma_find_is(t, m, 0, 0);
    } else {
        let f = fields[0];
        let more = fields.skip(1);
        let first = section_text(f, e);
        let tail = sections(more, e, rest);
        assert(can_carry(fields[0], e));
        assert(can_carry(fields[i], e));
        assert forall|k: int| 0 <= k < more.len() implies can_carry(#[trigger] more[k], e) by {
            assert(more[k] == fields[k + 1]);
        }
        assert forall|a: int, b: int| 0 <= b < a < more.len() implies !begins_with(
            #[trigger] marker_of(more[b].name),
            #[trigger] marker_of(more[a].name),
        ) by {
            assert(more[a] == fields[a + 1] && more[b] == fields[b + 1]);
            assert(!begins_with(marker_of(fields[b + 1].name), marker_of(fields[a + 1].name)));
        }
        lemma_section_found(more, e, rest, i - 1);
        assert(more[i - 1] == fields[i]);
        assert(more.skip(i - 1) =~= fields.skip(i));
        let p = section_start(more, e, i - 1);
        assert(t == first + tail);
        assert(t.skip(first.len() as int) =~= tail);
        assert(t.subrange(first.len() as int, t.len() as int) =~= tail);
        assert(t.skip(first.len() + p) =~= tail.skip(p));
        lemma_find_suffix(t, m, first.len() as int, 0);
        assert(find_from(t, m, first.len() as int) == Some(first.len() + p));
        lemma_find_from(t, m, first.len() as int);
        assert(!begins_with(marker_of(fields[0].name), marker_of(fields[i].name)));
        lemma_not_in_section(f, e, fields[i].name, tail);
        assert forall|q: int| 0 <= q < first.len() + p implies !occurs_at(t, m, q) by {
            if q < first.len() {
                assert(!occurs_at(section_text(f, e) + tail, m, q));
            }
        }
        lemma_find_is(t, m, 0, first.len() + p);
    }
}

/// The value of a field is read up to the next marker.
proof fn lemma_value_read(v: Seq<char>, rest: Seq<char>, name: Seq<char>, gap: bool)
    requires
        !has_text(v, "[[ ## "@),
    ensures
        ({
            let tail = if gap {
                "\n"@ + marker_of(name) + rest
            } else {
                marker_of(name) + rest
            };
            trim_of(up_to_marker("\n"@ + v + "\n"@ + tail)) == trim_of(v)
        }),
{
    let open = "[[ ## "@;
    let close = " ## ]]"@;
    let m = marker_of(name);
    let tail = if gap {
        "\n"@ + m + rest
    } else {
        m + rest
    };
    let inner = v + "\n"@ + tail;
    let t = "\n"@ + v + "\n"@ + tail;
    lemma_literals();
    lemma_no_opening(v, tail, 0);
    let p: int = if gap {
        (v.len() + 3) as int
    } else {
        (v.len() + 2) as int
    };
    assert(t.subrange(p, p + m.len()) =~= m);
    assert(occurs_at(t, m, p));
    lemma_marker_opens(t, name, p);
    assert forall|q: int| 0 <= q < p implies !occurs_at(t, open, q) by {
        if occurs_at(t, open, q) {
            assert(t.subrange(q, q + 6)[0] == t[q]);
            if 1 <= q <= v.len() + 1 {
                assert(t.subrange(q, q + 6) =~= inner.subrange(q - 1, q - 1 + 6));
                assert(occurs_at(inner, open, q - 1));
            } else {
                assert(t[q] == '\n');
            }
        }
    }
    lemma_find_is(t, open, 0, p);
    let after = t.skip(p);
    let c: int = m.len() - close.len();
    assert(after.subrange(c, c + close.len()) =~= close);
    assert(occurs_at(after, close, c));
    lemma_find_from(after, close, 0);
    let cut = t.take(p);
    lemma_trim_front('\n', v);
    let front = seq!['\n'] + v;
    lemma_trim_back(front, '\n');
    if gap {
        assert(cut =~= front.push('\n').push('\n'));
        lemma_trim_back(front.push('\n'), '\n');
    } else {
        assert(cut =~= front.push('\n'));
    }
}

proof fn lemma_sections_push(
    fields: Seq<FieldSpec>,
    f: FieldSpec,
    e: ExampleSpec,
    rest: Seq<char>,
)
    ensures
        sections(fields.push(f), e, rest) == sections(fields, e, section_text(f, e) + rest),
    decreases fields.len(),
{
    let all = fields.push(f);
    if fields.len() == 0 {
        assert(all.skip(1) =~= Seq::<FieldSpec>::empty());
        assert(sections(all.skip(1), e, rest) == rest);
        assert(all[0] == f);
    } else {
        assert(all.skip(1) =~= fields.skip(1).push(f));
        lemma_sections_push(fields.skip(1), f, e, rest);
    }
}

proof fn lemma_join_push2(parts: Seq<Seq<char>>, a: Seq<char>, b: Seq<char>)
    requires
        parts.len() > 0,
    ensures
        join_of(parts + seq![a, b], "\n"@) == join_of(parts, "\n"@) + "\n"@ + a + "\n"@ + b,
{
    let all = parts + seq![a, b];
    assert(all.drop_last() =~= parts.push(a));
    assert(parts.push(a).drop_last() =~= parts);
    assert(join_of(parts.push(a), "\n"@) == join_of(parts, "\n"@) + "\n"@ + a);
    assert(all.last() == b);
}

proof fn lemma_parts_are_sections(fields: Seq<FieldSpec>, e: ExampleSpec, rest: Seq<char>)
    requires
        fields.len() > 0,
        forall|i: int| 0 <= i < fields.len() ==> can_carry(#[trigger] fields[i], e),
    ensures
        field_parts(fields, e, Seq::empty()).len() > 0,
        join_of(field_parts(fields, e, Seq::empty()), "\n"@) + "\n"@ + rest == sections(
            fields,
            e,
            rest,
        ),
    decreases fields.len(),
{
    let f = fields.last();
    let front = fields.drop_last();
    assert(fields =~= front.push(f));
    assert(can_carry(fields[fields.len() - 1], e));
    let v = shown(e.store[f.name]);
    let m = marker_of(f.name);
    let before = field_parts(front, e, Seq::empty());
    let all = field_parts(fields, e, Seq::empty());
    assert(all =~= before + seq![m, v]);
    lemma_sections_push(front, f, e, rest);
    if front.len() == 0 {
        assert(before =~= Seq::<Seq<char>>::empty());
        assert(all =~= seq![m, v]);
        assert(all.drop_last() =~= seq![m]);
        assert(join_of(seq![m], "\n"@) == m);
        assert(join_of(all, "\n"@) == m + "\n"@ + v);
        assert(m + "\n"@ + v + "\n"@ + rest =~= section_text(f, e) + rest);
    } else {
        assert forall|i: int| 0 <= i < front.len() implies can_carry(#[trigger] front[i], e) by {
            assert(front[i] == fields[i]);
        }
        lemma_parts_are_sections(front, e, section_text(f, e) + rest);
        lemma_join_push2(before, m, v);
        assert(join_of(all, "\n"@) + "\n"@ + rest =~= join_of(before, "\n"@) + "\n"@ + (
        section_text(f, e) + rest));
    }
}

/// The fields with their values, trimmed.
pub open spec fn trimmed_fields(fields: Seq<FieldSpec>, e: ExampleSpec) -> Seq<
    (Seq<char>, ValueSpec),
> {
    fields.map_values(
        |f: FieldSpec| (f.name, ValueSpec::Text(trim_of(shown(e.store[f.name])))),
    )
}

proof fn lemma_all_read(output: Seq<char>, fields: Seq<FieldSpec>, e: ExampleSpec, n: int)
    requires
        0 <= n <= fields.len(),
        distinct(fields),
        forall|i: int|
            0 <= i < fields.len() ==> chat_section(output, (#[trigger] fields[i]).name) == Some(
                trim_of(shown(e.store[fields[i].name])),
            ),
    ensures
        chat_marked(output, names(fields).take(n)) == trimmed_fields(fields, e).take(n),
    decreases n,
{
    let all = names(fields);
    let want = trimmed_fields(fields, e);
    if n == 0 {
        assert(all.take(0) =~= Seq::<Seq<char>>::empty());
        assert(want.take(0) =~= Seq::<(Seq<char>, ValueSpec)>::empty());
    } else {
        lemma_all_read(output, fields, e, n - 1);
        assert(all.take(n).drop_last() =~= all.take(n - 1));
        assert(all.take(n).last() == fields[n - 1].name);
        let front = want.take(n - 1);
        if names_of(front).contains(fields[n - 1].name) {
            let k = names_of(front).index_of(fields[n - 1].name);
            assert(names(fields)[k] == names(fields)[n - 1]);
        }
        assert(want.take(n) =~= front.push(want[n - 1]));
    }
}

/// The section of a field is read as its value, trimmed.
proof fn lemma_section_read(fields: Seq<FieldSpec>, e: ExampleSpec, i: int)
    requires
        carried(fields, e),
        0 <= i < fields.len(),
    ensures
        chat_section(
            sections(fields, e, "\n"@ + completed_marker() + "\n"@),
            fields[i].name,
        ) == Some(trim_of(shown(e.store[fields[i].name]))),
{
    let end = "\n"@ + completed_marker() + "\n"@;
    let output = sections(fields, e, end);
    lemma_literals();
    lemma_section_found(fields, e, end, i);
    let name = fields[i].name;
    let m = marker_of(name);
    let v = shown(e.store[name]);
    let p = section_start(fields, e, i);
    let g = fields.skip(i).skip(1);
    let here = sections(fields.skip(i), e, end);
    let later = sections(g, e, end);
    let tail = "\n"@ + v + "\n"@ + later;
    assert(fields.skip(i)[0] == fields[i]);
    assert(can_carry(fields[i], e));
    assert(here =~= m + tail);
    assert(output.skip(p) == here);
    assert(output.skip(p + m.len()) =~= here.skip(m.len() as int));
    assert(here.skip(m.len() as int) =~= tail);
    if i + 1 < fields.len() {
        assert(g[0] == fields[i + 1]);
        let rest = "\n"@ + shown(e.store[g[0].name]) + "\n"@ + sections(g.skip(1), e, end);
        assert(later =~= marker_of(g[0].name) + rest);
        lemma_value_read(v, rest, g[0].name, false);
    } else {
        assert(g =~= Seq::<FieldSpec>::empty());
        assert(later =~= "\n"@ + marker_of("completed"@) + "\n"@);
        lemma_value_read(v, "\n"@, "completed"@, true);
    }
}

/// A reply that is written as a demonstration is read as what was written: the
/// output fields, each with its value trimmed.
pub proof fn law_reply_is_read_back(s: SigSpec, e: ExampleSpec, skip: Seq<Seq<char>>)
    requires
        distinct(fields_not_in(s.outputs(), skip)),
        carried(fields_not_in(s.outputs(), skip), e),
    ensures
        chat_fields(chat_demo_assistant(s, e, skip), not_in(names(s.outputs()), skip))
            == trimmed_fields(fields_not_in(s.outputs(), skip), e),
{
    let fields = fields_not_in(s.outputs(), skip);
    lemma_names_not_in(s.outputs(), skip);
    let output = chat_demo_assistant(s, e, skip);
    let all = names(fields);
    if fields.len() == 0 {
        assert(trimmed_fields(fields, e) =~= Seq::<(Seq<char>, ValueSpec)>::empty());
    } else {
        let parts = field_parts(fields, e, Seq::empty());
        let end = "\n"@ + completed_marker() + "\n"@;
        lemma_parts_are_sections(fields, e, end);
        lemma_join_push2(parts, Seq::empty(), completed_marker());
        let most = parts + seq![Seq::empty(), completed_marker()];
        let whole = parts + seq![Seq::empty(), completed_marker(), Seq::empty()];
        assert(whole.drop_last() =~= most);
        assert(output =~= join_of(parts, "\n"@) + "\n"@ + end);
        lemma_literals();
        assert forall|i: int| 0 <= i < fields.len() implies chat_section(
            output,
            (#[trigger] fields[i]).name,
        ) == Some(trim_of(shown(e.store[fields[i].name]))) by {
            lemma_section_read(fields, e, i);
        }
        lemma_all_read(output, fields, e, fields.len() as int);
        assert(all.take(fields.len() as int) =~= all);
        assert(trimmed_fields(fields, e).take(fields.len() as int) =~= trimmed_fields(fields, e));
    }
}

} // verus!
