//! The JSON adapter: prompts that ask for a JSON object, and the fields in such a
//! reply.

use crate::adapter::{
    around, chat_demo_user, field_parts, fill_first, header_parts, objective, objective_of,
    or_whole, pair_fields, pairs_ok, push_field_parts, push_template, template_parts, tick, ticked,
    ChatAdapter,
};
use crate::error::Result;
use crate::example::{example_list, lemma_example_list, Example, ExampleSpec};
use crate::json::{
    empty_object, float_display, json_object, lemma_json_object, nests_within, new_object,
    parsed_json, pretty_json, printed_json, put_text, read_ok, show_float, Json, JsonSpec,
};
use crate::message::{message_list, push_message, Message, MessageSpec};
use crate::signature::{
    distinct, lemma_of_type_distinct, names, FieldDef, FieldSpec, FieldType, SigSpec, Signature,
};
use crate::strmap::StrMap;
use crate::text::{
    chars_of, dec, dec_int, dec_of, dec_signed, find_chars, find_first, is_digit, join, join_of,
    law_number_is_read_back, lemma_dec_reads, parse_of, push_text, slice_text, texts, trim, trim_of,
};
use crate::value::{
    bool_text, bool_word, names_of, no_fields, put_value, set_pair, shown, value_object, Value,
    ValueSpec,
};
use vstd::prelude::*;

verus! {

/// Formats prompts that ask for a JSON object and reads the fields in replies.
#[derive(Debug)]
pub struct JSONAdapter;

// ---------------------------------------------------------------------------
// Prompts
// ---------------------------------------------------------------------------

/// The lines of the object in the template.
pub open spec fn object_lines(outputs: Seq<FieldSpec>) -> Seq<Seq<char>> {
    outputs.map_values(
        |f: FieldSpec| "  \""@ + f.name + "\": \"{"@ + f.name + "}\""@,
    )
}

/// The system message of the JSON adapter.
pub open spec fn json_system(s: SigSpec) -> Seq<char> {
    join_of(
        header_parts(s, s.outputs()).push("Inputs will have the following structure:"@)
            + template_parts(s.inputs()) + seq![
            "Outputs will be a JSON object with the following fields."@,
            "{\n"@ + join_of(object_lines(s.outputs()), ",\n"@) + "\n}"@,
            objective_of(s, names(s.outputs())),
        ],
        "\n"@,
    )
}

/// The user message of the JSON adapter.
pub open spec fn json_user(s: SigSpec, e: ExampleSpec) -> Seq<char> {
    join_of(
        field_parts(s.inputs(), e, seq![Seq::empty()]).push(
            "Respond with a JSON object in the following order of fields: "@ + join_of(
                ticked(names(s.outputs())),
                ", then "@,
            ) + "."@,
        ),
        "\n"@,
    )
}

/// The object that holds the shown values of fields.
pub open spec fn shown_object(fields: Seq<FieldSpec>, e: ExampleSpec) -> Map<
    Seq<char>,
    JsonSpec,
>
    decreases fields.len(),
{
    if fields.len() == 0 {
        empty_object()
    } else {
        let front = shown_object(fields.drop_last(), e);
        let name = fields.last().name;
        if e.store.contains_key(name) {
            front.insert(name, JsonSpec::Text(shown(e.store[name])))
        } else {
            front
        }
    }
}

/// The model's side of a demonstration.
pub open spec fn json_demo_assistant(s: SigSpec, e: ExampleSpec) -> Seq<char> {
    pretty_json(JsonSpec::Object(shown_object(s.outputs(), e)))
}

/// The fields with the texts of their values.
pub open spec fn shown_fields(fields: Seq<FieldSpec>, e: ExampleSpec) -> Seq<
    (Seq<char>, ValueSpec),
> {
    fields.map_values(|f: FieldSpec| (f.name, ValueSpec::Text(shown(e.store[f.name]))))
}

/// The object holds the text of each field that is there, and nothing else.
proof fn lemma_shown_object(fields: Seq<FieldSpec>, e: ExampleSpec)
    ensures
        forall|k: Seq<char>| #[trigger]
            shown_object(fields, e).contains_key(k) ==> shown_object(fields, e)[k]
                == JsonSpec::Text(shown(e.store[k])),
        forall|i: int|
            0 <= i < fields.len() && e.store.contains_key((#[trigger] fields[i]).name)
                ==> shown_object(fields, e).contains_key(fields[i].name),
    decreases fields.len(),
{
    if fields.len() > 0 {
        lemma_shown_object(fields.drop_last(), e);
        assert forall|i: int|
            0 <= i < fields.len() && e.store.contains_key(
                (#[trigger] fields[i]).name,
            ) implies shown_object(fields, e).contains_key(fields[i].name) by {
            if i < fields.len() - 1 {
                assert(fields.drop_last()[i] == fields[i]);
            }
        }
    }
}

proof fn lemma_all_picked(
    fields: Seq<FieldSpec>,
    e: ExampleSpec,
    m: Map<Seq<char>, JsonSpec>,
    n: int,
)
    requires
        0 <= n <= fields.len(),
        distinct(fields),
        forall|i: int|
            0 <= i < fields.len() ==> m.contains_key((#[trigger] fields[i]).name)
                && m[fields[i].name] == JsonSpec::Text(shown(e.store[fields[i].name])),
    ensures
        picked(m, names(fields).take(n)) == shown_fields(fields, e).take(n),
    decreases n,
{
    let all = names(fields);
    let want = shown_fields(fields, e);
    if n == 0 {
        assert(all.take(0) =~= Seq::<Seq<char>>::empty());
        assert(want.take(0) =~= Seq::<(Seq<char>, ValueSpec)>::empty());
    } else {
        lemma_all_picked(fields, e, m, n - 1);
        assert(all.take(n).drop_last() =~= all.take(n - 1));
        assert(all.take(n).last() == fields[n - 1].name);
        let front = want.take(n - 1);
        if names_of(front).contains(fields[n - 1].name) {
            let k = names_of(front).index_of(fields[n - 1].name);
            assert(all[k] == all[n - 1]);
        }
        assert(want.take(n) =~= front.push(want[n - 1]));
    }
}

/// The messages of demonstrations.
pub open spec fn json_demos(s: SigSpec, demos: Seq<ExampleSpec>) -> Seq<MessageSpec>
    decreases demos.len(),
{
    if demos.len() == 0 {
        Seq::empty()
    } else {
        json_demos(s, demos.drop_last()).push(
            MessageSpec::user(chat_demo_user(s, demos.last())),
        ).push(MessageSpec::assistant(json_demo_assistant(s, demos.last())))
    }
}

/// The messages of a prompt.
pub open spec fn json_messages(s: SigSpec, e: ExampleSpec, demos: Seq<ExampleSpec>) -> Seq<
    MessageSpec,
> {
    (seq![MessageSpec::system(json_system(s))] + json_demos(s, demos)).push(
        MessageSpec::user(json_user(s, e)),
    )
}

fn object_line(name: &str) -> (r: String)
    ensures
        r@ == "  \""@ + name@ + "\": \"{"@ + name@ + "}\""@,
{
    let mut r = around("  \"", name, "\": \"{");
    r.append(name);
    r.append("}\"");
    r
}

fn object_text(fields: &Vec<(&String, &FieldDef)>) -> (r: String)
    requires
        pairs_ok(fields@),
    ensures
        r@ == "{\n"@ + join_of(object_lines(pair_fields(fields@)), ",\n"@) + "\n}"@,
{
    let ghost want = object_lines(pair_fields(fields@));
    let mut lines: Vec<String> = Vec::new();
    let mut i: usize = 0;
    while i < fields.len()
        invariant
            i <= fields.len(),
            pairs_ok(fields@),
            want == object_lines(pair_fields(fields@)),
            texts(lines@) == want.take(i as int),
        decreases fields.len() - i,
    {
        let (name, _) = fields[i];
        push_text(&mut lines, object_line(name.as_str()));
        proof {
            assert(fields@[i as int].0@ == fields@[i as int].1@.name);
            assert(want.take(i + 1) =~= want.take(i as int).push(want[i as int]));
        }
        i = i + 1;
    }
    proof {
        assert(want.take(i as int) =~= want);
    }
    around("{\n", join(&lines, ",\n").as_str(), "\n}")
}

fn shown_map(fields: &Vec<(&String, &FieldDef)>, e: &Example) -> (r: StrMap<Json>)
    requires
        pairs_ok(fields@),
    ensures
        json_object(r) == shown_object(pair_fields(fields@), e@),
{
    let ghost all = pair_fields(fields@);
    let mut r = new_object();
    let mut i: usize = 0;
    proof {
        assert(all.take(0) =~= Seq::<FieldSpec>::empty());
    }
    while i < fields.len()
        invariant
            i <= fields.len(),
            pairs_ok(fields@),
            all == pair_fields(fields@),
            json_object(r) == shown_object(all.take(i as int), e@),
        decreases fields.len() - i,
    {
        proof {
            assert(all.take(i + 1).drop_last() =~= all.take(i as int));
            assert(all.take(i + 1).last() == fields@[i as int].1@);
            assert(fields@[i as int].0@ == fields@[i as int].1@.name);
        }
        let (name, _) = fields[i];
        if let Some(v) = e.get(name.as_str()) {
            put_text(&mut r, name.as_str(), v.to_text().as_str());
        }
        i = i + 1;
    }
    proof {
        assert(all.take(i as int) =~= all);
    }
    r
}

impl JSONAdapter {
    /// An adapter.
    pub fn new() -> (r: Self)
        ensures
            r == JSONAdapter,
    {
        JSONAdapter
    }

    /// The system message: the fields, the form of inputs and outputs, and the
    /// objective.
    pub fn format_system_message(&self, signature: &Signature) -> (r: String)
        ensures
            r@ == json_system(signature@),
    {
        let outputs = signature.output_fields();
        let mut parts = ChatAdapter::new().header(signature, &outputs);
        push_text(&mut parts, "Inputs will have the following structure:".to_string());
        push_template(&mut parts, &signature.input_fields());
        let ghost sofar = texts(parts@);
        push_text(
            &mut parts,
            "Outputs will be a JSON object with the following fields.".to_string(),
        );
        push_text(&mut parts, object_text(&outputs));
        push_text(&mut parts, objective(signature, &signature.output_names()));
        proof {
            assert(texts(parts@) =~= sofar + seq![
                "Outputs will be a JSON object with the following fields."@,
                "{\n"@ + join_of(object_lines(signature@.outputs()), ",\n"@) + "\n}"@,
                objective_of(signature@, names(signature@.outputs())),
            ]);
        }
        join(&parts, "\n")
    }

    /// The user message: the inputs and what is asked for.
    pub fn format_user_message(&self, signature: &Signature, inputs: &Example) -> (r: String)
        ensures
            r@ == json_user(signature@, inputs@),
    {
        let mut parts: Vec<String> = Vec::new();
        push_field_parts(&mut parts, &signature.input_fields(), inputs, true);
        proof {
            assert(texts(parts@) =~= field_parts(
                signature@.inputs(),
                inputs@,
                seq![Seq::empty()],
            ));
        }
        let list = join(&tick(&signature.output_names()), ", then ");
        push_text(
            &mut parts,
            around(
                "Respond with a JSON object in the following order of fields: ",
                list.as_str(),
                ".",
            ),
        );
        join(&parts, "\n")
    }

    /// The model's side of a demonstration: an object with the output fields. It
    /// is read back as what was written.
    pub fn demo_reply(&self, signature: &Signature, demo: &Example) -> (r: String)
        ensures
            r@ == json_demo_assistant(signature@, demo@),
            (forall|i: int|
                0 <= i < signature@.outputs().len() ==> demo@.store.contains_key(
                    (#[trigger] signature@.outputs()[i]).name,
                )) ==> json_fields(r@, names(signature@.outputs())) == shown_fields(
                signature@.outputs(),
                demo@,
            ),
    {
        let map = shown_map(&signature.output_fields(), demo);
        let ghost outputs = signature@.outputs();
        let ghost m = shown_object(outputs, demo@);
        let r = Json::Object(map).to_text_pretty();
        proof {
            use_type_invariant(signature);
            signature.lemma_distinct();
            lemma_of_type_distinct(signature@.fields, FieldType::Output);
            lemma_shown_object(outputs, demo@);
            assert(nests_within(JsonSpec::Object(m), 127)) by {
                assert forall|k: Seq<char>| m.contains_key(k) implies nests_within(
                    #[trigger] m[k],
                    126,
                ) by {}
            }
            if forall|i: int|
                0 <= i < outputs.len() ==> demo@.store.contains_key(
                    (#[trigger] outputs[i]).name,
                ) {
                lemma_all_picked(outputs, demo@, m, outputs.len() as int);
                assert(names(outputs).take(outputs.len() as int) =~= names(outputs));
                assert(shown_fields(outputs, demo@).take(outputs.len() as int) =~= shown_fields(
                    outputs,
                    demo@,
                ));
            }
        }
        r
    }

    /// The messages of a prompt: the system message, a pair for each
    /// demonstration, and the user message.
    pub fn format_messages(
        &self,
        signature: &Signature,
        inputs: &Example,
        demos: &Vec<Example>,
    ) -> (r: Vec<Message>)
        ensures
            message_list(r@) == json_messages(signature@, inputs@, example_list(demos@)),
    {
        let ghost s = signature@;
        let ghost all = example_list(demos@);
        let ghost first = seq![MessageSpec::system(json_system(s))];
        let mut messages: Vec<Message> = Vec::new();
        push_message(
            &mut messages,
            Message::system(self.format_system_message(signature).as_str()),
        );
        let mut i: usize = 0;
        proof {
            lemma_example_list(demos@);
            assert(all.take(0) =~= Seq::<ExampleSpec>::empty());
            assert(message_list(messages@) =~= first + json_demos(s, all.take(0)));
        }
        while i < demos.len()
            invariant
                i <= demos.len(),
                s == signature@,
                all == example_list(demos@),
                all.len() == demos@.len(),
                forall|k: int| 0 <= k < demos@.len() ==> #[trigger] all[k] == demos@[k]@,
                message_list(messages@) == first + json_demos(s, all.take(i as int)),
            decreases demos.len() - i,
        {
            let ghost demo = demos@[i as int]@;
            proof {
                assert(all.take(i + 1).drop_last() =~= all.take(i as int));
                assert(all.take(i + 1).last() == demo);
            }
            let mut user: Vec<String> = Vec::new();
            push_field_parts(&mut user, &signature.input_fields(), &demos[i], false);
            proof {
                assert(texts(user@) =~= field_parts(s.inputs(), demo, Seq::empty()));
            }
            push_message(&mut messages, Message::user(join(&user, "\n").as_str()));
            push_message(
                &mut messages,
                Message::assistant(self.demo_reply(signature, &demos[i]).as_str()),
            );
            proof {
                let a = MessageSpec::user(chat_demo_user(s, demo));
                let b = MessageSpec::assistant(json_demo_assistant(s, demo));
                let front = json_demos(s, all.take(i as int));
                assert((first + front).push(a).push(b) =~= first + front.push(a).push(b));
            }
            i = i + 1;
        }
        proof {
            assert(all.take(i as int) =~= all);
        }
        push_message(
            &mut messages,
            Message::user(self.format_user_message(signature, inputs).as_str()),
        );
        messages
    }
}

impl Default for JSONAdapter {
    /// An adapter.
    fn default() -> (r: Self)
        ensures
            r == JSONAdapter,
    {
        JSONAdapter::new()
    }
}

// ---------------------------------------------------------------------------
// Replies
// ---------------------------------------------------------------------------

/// The text of a JSON value as the value of a field.
pub open spec fn plain_text(j: JsonSpec) -> Seq<char> {
    match j {
        JsonSpec::Text(s) => s,
        JsonSpec::Int(n) => if n > i64::MAX {
            float_display(dec_int(n))
        } else {
            dec_int(n)
        },
        JsonSpec::Float(t) => float_display(t),
        JsonSpec::Bool(b) => bool_word(b),
        JsonSpec::Null => "null"@,
        _ => printed_json(j),
    }
}

/// Where the braces that are open at `i`, `depth` of them, are closed again.
pub open spec fn braces_end(s: Seq<char>, i: int, depth: nat) -> Option<int>
    decreases s.len() - i,
{
    if i < 0 || i >= s.len() {
        None
    } else if s[i] == '{' {
        braces_end(s, i + 1, depth + 1)
    } else if s[i] == '}' {
        if depth <= 1 {
            Some(i + 1)
        } else {
            braces_end(s, i + 1, (depth - 1) as nat)
        }
    } else {
        braces_end(s, i + 1, depth)
    }
}

/// The text from the first brace to the one that closes it.
pub open spec fn object_span(s: Seq<char>) -> Option<Seq<char>> {
    match find_first(s, seq!['{']) {
        Some(p) => match braces_end(s, p, 0) {
            Some(e) => Some(s.subrange(p, e)),
            None => None,
        },
        None => None,
    }
}

/// The object that a text is.
pub open spec fn object_in(s: Seq<char>) -> Option<Map<Seq<char>, JsonSpec>> {
    match parsed_json(trim_of(s)) {
        Ok(JsonSpec::Object(m)) => Some(m),
        _ => None,
    }
}

/// The object that a reply is, or that stands in it.
pub open spec fn reply_object(output: Seq<char>) -> Option<Map<Seq<char>, JsonSpec>> {
    match object_in(output) {
        Some(m) => Some(m),
        None => match object_span(output) {
            Some(t) => object_in(t),
            None => None,
        },
    }
}

/// The named members of an object.
pub open spec fn picked(m: Map<Seq<char>, JsonSpec>, names: Seq<Seq<char>>) -> Seq<
    (Seq<char>, ValueSpec),
>
    decreases names.len(),
{
    if names.len() == 0 {
        Seq::empty()
    } else {
        let front = picked(m, names.drop_last());
        if m.contains_key(names.last()) {
            set_pair(front, names.last(), ValueSpec::Text(plain_text(m[names.last()])))
        } else {
            front
        }
    }
}

/// The fields of a reply. A reply without an object that has any of them is the
/// first field.
pub open spec fn json_fields(output: Seq<char>, names: Seq<Seq<char>>) -> Seq<
    (Seq<char>, ValueSpec),
> {
    match reply_object(output) {
        Some(m) => or_whole(picked(m, names), output, names),
        None => or_whole(Seq::empty(), output, names),
    }
}

/// The text of a JSON value as the value of a field.
pub fn json_value_to_dspy_value(v: &Json) -> (r: Value)
    ensures
        r@ == ValueSpec::Text(plain_text(v@)),
        (v@ is Array || v@ is Object) && nests_within(v@, 127) ==> (r@ matches ValueSpec::Text(t)
            && parsed_json(t) == read_ok(v@)),
{
    let text = match v {
        Json::Text(s) => s.clone(),
        Json::Signed(i) => dec_signed(*i),
        Json::Unsigned(u) => {
            let digits = dec(*u);
            if *u <= i64::MAX as u64 {
                digits
            } else {
                show_float(digits.as_str())
            }
        },
        Json::Float(f) => show_float(f.as_text()),
        Json::Bool(b) => bool_text(*b),
        Json::Null => "null".to_string(),
        _ => v.to_text(),
    };
    Value::String(text)
}

/// The text from the first brace to the one that closes it.
pub fn extract_json_object(text: &str) -> (r: Option<String>)
    ensures
        match r {
            Some(t) => object_span(text@) == Some(t@),
            None => object_span(text@) is None,
        },
{
    let v = chars_of(text);
    let mut brace: Vec<char> = Vec::new();
    brace.push('{');
    let n: usize = v.len();
    proof {
        assert(brace@ =~= seq!['{']);
    }
    match find_chars(&v, &brace, 0) {
        Some(p) => {
            let mut i: usize = p;
            let mut depth: usize = 0;
            while i < n
                invariant
                    n == v@.len(),
                    v@ == text@,
                    p <= i <= n,
                    depth <= i - p,
                    find_first(text@, seq!['{']) == Some(p as int),
                    braces_end(text@, p as int, 0) == braces_end(text@, i as int, depth as nat),
                decreases n - i,
            {
                if v[i] == '{' {
                    depth = depth + 1;
                } else if v[i] == '}' {
                    if depth <= 1 {
                        return Some(slice_text(&v, p, i + 1));
                    }
                    depth = depth - 1;
                }
                i = i + 1;
            }
            None
        },
        None => None,
    }
}

/// The object that a text is.
pub fn try_parse_json(text: &str) -> (r: Option<StrMap<Json>>)
    ensures
        match r {
            Some(m) => object_in(text@) == Some(json_object(m)),
            None => object_in(text@) is None,
        },
{
    match Json::parse(trim(text).as_str()) {
        Ok(Json::Object(m)) => Some(m),
        _ => None,
    }
}

impl JSONAdapter {
    /// The output fields of a reply: members of the object that it is or that
    /// stands in it. A reply without any of them is the first field.
    pub fn parse_output(&self, output: &str, signature: &Signature) -> (r: Result<StrMap<Value>>)
        ensures
            r matches Ok(m) && value_object(m) == json_fields(
                output@,
                names(signature@.outputs()),
            ),
    {
        let wanted = signature.output_names();
        let ghost all = texts(wanted@);
        let found = match try_parse_json(output) {
            Some(m) => Some(m),
            None => match extract_json_object(output) {
                Some(t) => try_parse_json(t.as_str()),
                None => None,
            },
        };
        let mut result = no_fields();
        if let Some(m) = &found {
            let mut i: usize = 0;
            proof {
                assert(all.take(0) =~= Seq::<Seq<char>>::empty());
                use_type_invariant(m);
                lemma_json_object(*m);
            }
            while i < wanted.len()
                invariant
                    i <= wanted.len(),
                    all == texts(wanted@),
                    json_object(*m).dom() == m@.dom(),
                    forall|k: Seq<char>| #[trigger]
                        m@.contains_key(k) ==> json_object(*m)[k] == m@[k]@,
                    value_object(result) == picked(json_object(*m), all.take(i as int)),
                decreases wanted.len() - i,
            {
                proof {
                    assert(all.take(i + 1).drop_last() =~= all.take(i as int));
                    assert(all.take(i + 1).last() == wanted@[i as int]@);
                }
                if let Some(v) = m.get(wanted[i].as_str()) {
                    put_value(&mut result, wanted[i].clone(), json_value_to_dspy_value(v));
                }
                i = i + 1;
            }
            proof {
                assert(all.take(i as int) =~= all);
            }
        }
        fill_first(&mut result, &wanted, output);
        Ok(result)
    }
}

/// A text is the numeral of an integer: digits that denote it, after a minus where it is
/// negative.
pub open spec fn is_numeral(t: Seq<char>, n: int) -> bool {
    if n < 0 {
        t.len() > 1 && t[0] == '-' && parse_of(t.skip(1), (-n) as nat) == Some((-n) as nat)
    } else {
        t.len() > 0 && t[0] != '-' && parse_of(t, n as nat) == Some(n as nat)
    }
}

/// The numeral of an integer denotes it.
pub proof fn lemma_numeral(n: int)
    ensures
        is_numeral(dec_int(n), n),
        dec_int(n)[0] == '-' || is_digit(dec_int(n)[0]),
{
    let k: nat = if n < 0 {
        (-n) as nat
    } else {
        n as nat
    };
    law_number_is_read_back(k, k);
    lemma_dec_reads(k);
    assert(is_digit(dec_of(k)[0]));
    if n < 0 {
        assert(dec_int(n).skip(1) =~= dec_of(k));
    }
}

/// The text of a value that is no text is its JSON text: a truth value is read as `true`
/// or `false`, nothing as `null`, an integer as its numeral, a number with a fraction, or
/// one that 64 bits do not hold, as such a number is displayed, and a list or an object as
/// it is printed. A text is read as it is.
pub proof fn law_field_text_is_json_text(j: JsonSpec)
    ensures
        j == JsonSpec::Bool(true) ==> plain_text(j) == "true"@,
        j == JsonSpec::Bool(false) ==> plain_text(j) == "false"@,
        j == JsonSpec::Null ==> plain_text(j) == "null"@,
        j matches JsonSpec::Text(s) ==> plain_text(j) == s,
        j matches JsonSpec::Int(n) ==> (n <= i64::MAX ==> is_numeral(plain_text(j), n)),
        j matches JsonSpec::Int(n) ==> (n > i64::MAX ==> plain_text(j) == float_display(
            dec_int(n),
        )),
        j matches JsonSpec::Float(t) ==> plain_text(j) == float_display(t),
        j is Array || j is Object ==> plain_text(j) == printed_json(j),
{
    if let JsonSpec::Int(n) = j {
        lemma_numeral(n);
    }
}

/// Values that are no texts are told apart by their texts: truth values, integers that
/// 64 bits hold, nothing, and lists and objects that are read as they were printed.
pub proof fn law_field_texts_tell_values_apart(a: JsonSpec, b: JsonSpec)
    requires
        told_by_text(a),
        told_by_text(b),
        plain_text(a) == plain_text(b),
        (a is Array || a is Object) == (b is Array || b is Object),
    ensures
        a == b,
{
    reveal_strlit("true");
    reveal_strlit("false");
    reveal_strlit("null");
    assert("true"@[0] == 't' && "false"@[0] == 'f' && "null"@[0] == 'n');
    if let JsonSpec::Int(n) = a {
        lemma_numeral(n);
    }
    if let JsonSpec::Int(n) = b {
        lemma_numeral(n);
    }
    if let (JsonSpec::Int(n), JsonSpec::Int(k)) = (a, b) {
        lemma_numerals_apart(n, k);
    }
}

/// A truth value, an integer that 64 bits hold, nothing, or a list or an object that is
/// read as it was printed.
pub open spec fn told_by_text(j: JsonSpec) -> bool {
    match j {
        JsonSpec::Bool(_) | JsonSpec::Null => true,
        JsonSpec::Int(n) => n <= i64::MAX,
        JsonSpec::Array(_) | JsonSpec::Object(_) => parsed_json(printed_json(j)) == read_ok(j),
        _ => false,
    }
}

proof fn lemma_numerals_apart(n: int, k: int)
    requires
        dec_int(n) == dec_int(k),
    ensures
        n == k,
{
    lemma_numeral(n);
    lemma_numeral(k);
    let a: nat = if n < 0 {
        (-n) as nat
    } else {
        n as nat
    };
    let b: nat = if k < 0 {
        (-k) as nat
    } else {
        k as nat
    };
    lemma_dec_reads(a);
    lemma_dec_reads(b);
    if n < 0 {
        assert(dec_int(n).skip(1) =~= dec_of(a));
        assert(dec_int(k).skip(1) =~= dec_of(b));
    }
}

/// The model's side of a demonstration is an object with the text of every output that the
/// example has, and nothing else.
pub proof fn law_demo_object_holds_the_outputs(s: SigSpec, e: ExampleSpec)
    ensures
        json_demo_assistant(s, e) == pretty_json(
            JsonSpec::Object(shown_object(s.outputs(), e)),
        ),
        forall|k: Seq<char>| #[trigger]
            shown_object(s.outputs(), e).contains_key(k) <==> names(s.outputs()).contains(k)
                && e.store.contains_key(k),
        forall|k: Seq<char>| #[trigger]
            shown_object(s.outputs(), e).contains_key(k) ==> shown_object(s.outputs(), e)[k]
                == JsonSpec::Text(shown(e.store[k])),
{
    lemma_shown_object(s.outputs(), e);
    lemma_shown_keys(s.outputs(), e);
    assert forall|k: Seq<char>|
        names(s.outputs()).contains(k) && e.store.contains_key(k) implies #[trigger] shown_object(
        s.outputs(),
        e,
    ).contains_key(k) by {
        let i = choose|i: int| 0 <= i < names(s.outputs()).len() && names(s.outputs())[i] == k;
        assert(s.outputs()[i].name == k);
    }
}

proof fn lemma_shown_keys(fields: Seq<FieldSpec>, e: ExampleSpec)
    ensures
        forall|k: Seq<char>| #[trigger]
            shown_object(fields, e).contains_key(k) ==> names(fields).contains(k)
                && e.store.contains_key(k),
    decreases fields.len(),
{
    if fields.len() > 0 {
        let d = fields.drop_last();
        lemma_shown_keys(d, e);
        assert forall|k: Seq<char>| #[trigger]
            shown_object(fields, e).contains_key(k) implies names(fields).contains(k)
            && e.store.contains_key(k) by {
            if k == fields.last().name {
                assert(names(fields)[fields.len() - 1] == k);
            }
            if shown_object(d, e).contains_key(k) {
                let i = choose|i: int| 0 <= i < names(d).len() && names(d)[i] == k;
                assert(names(fields)[i] == k);
            }
        }
    }
}

} // verus!
