//! The XML adapter: prompts with `<field>` tags, and the fields in a reply.

use crate::adapter::{
    all_fields, around, fill_first, header_parts, objective, objective_of, or_whole, pair_fields,
    pairs_ok, trimmed_fields, ChatAdapter,
};
use crate::error::Result;
use crate::example::{example_list, lemma_example_list, Example, ExampleSpec};
use crate::message::{message_list, push_message, Message, MessageSpec};
use crate::signature::{distinct, names, FieldDef, FieldSpec, SigSpec, Signature};
use crate::strmap::StrMap;
use crate::text::{
    chars_of, find_chars, find_first, find_from, has_text, is_white, join, join_of, lemma_find_from,
    lemma_find_is, lemma_find_suffix, lemma_not_over_line, lemma_trim_back, lemma_trim_front,
    occurs_at, push_text, same, slice_text, texts, trim, trim_of,
};
use crate::unicode::{is_word, word_char, word_flags};
use crate::value::{names_of, no_fields, put_value, set_pair, shown, value_object, Value, ValueSpec};
use vstd::prelude::*;

verus! {

/// Formats prompts with XML tags and reads the fields in replies.
#[derive(Debug)]
pub struct XMLAdapter;

// ---------------------------------------------------------------------------
// Prompts
// ---------------------------------------------------------------------------

/// The tag that opens a field.
pub open spec fn tag_of(name: Seq<char>) -> Seq<char> {
    "<"@ + name + ">"@
}

/// The tag that closes a field.
pub open spec fn end_tag_of(name: Seq<char>) -> Seq<char> {
    "</"@ + name + ">"@
}

/// For each field that the example has: its value between its tags, and `tail`.
pub open spec fn xml_parts(
    fields: Seq<FieldSpec>,
    e: ExampleSpec,
    tail: Seq<Seq<char>>,
) -> Seq<Seq<char>>
    decreases fields.len(),
{
    if fields.len() == 0 {
        Seq::empty()
    } else {
        let front = xml_parts(fields.drop_last(), e, tail);
        let name = fields.last().name;
        if e.store.contains_key(name) {
            front + seq![tag_of(name), shown(e.store[name]), end_tag_of(name)] + tail
        } else {
            front
        }
    }
}

/// The template: for each field its name in braces between its tags.
pub open spec fn xml_template(fields: Seq<FieldSpec>) -> Seq<Seq<char>>
    decreases fields.len(),
{
    if fields.len() == 0 {
        Seq::empty()
    } else {
        let name = fields.last().name;
        xml_template(fields.drop_last()) + seq![
            tag_of(name),
            "{"@ + name + "}"@,
            end_tag_of(name),
            Seq::empty(),
        ]
    }
}

/// The system message of the XML adapter.
pub open spec fn xml_system(s: SigSpec) -> Seq<char> {
    join_of(
        (header_parts(s, s.outputs()) + xml_template(s.fields)).push(
            objective_of(s, names(s.outputs())),
        ),
        "\n"@,
    )
}

/// The names of the tags, each between backquotes.
pub open spec fn ticked_tags(names: Seq<Seq<char>>) -> Seq<Seq<char>> {
    names.map_values(|n: Seq<char>| "`<"@ + n + ">`"@)
}

/// The user message of the XML adapter.
pub open spec fn xml_user(s: SigSpec, e: ExampleSpec) -> Seq<char> {
    join_of(
        xml_parts(s.inputs(), e, seq![Seq::empty()]).push(
            "Respond with the corresponding output fields wrapped in XML tags "@ + join_of(
                ticked_tags(names(s.outputs())),
                ", then "@,
            ) + "."@,
        ),
        "\n"@,
    )
}

/// The user's side of a demonstration.
pub open spec fn xml_demo_user(s: SigSpec, e: ExampleSpec) -> Seq<char> {
    join_of(xml_parts(s.inputs(), e, Seq::empty()), "\n"@)
}

/// The model's side of a demonstration.
pub open spec fn xml_demo_assistant(s: SigSpec, e: ExampleSpec) -> Seq<char> {
    join_of(xml_parts(s.outputs(), e, Seq::empty()), "\n"@)
}

/// The messages of demonstrations.
pub open spec fn xml_demos(s: SigSpec, demos: Seq<ExampleSpec>) -> Seq<MessageSpec>
    decreases demos.len(),
{
    if demos.len() == 0 {
        Seq::empty()
    } else {
        xml_demos(s, demos.drop_last()).push(
            MessageSpec::user(xml_demo_user(s, demos.last())),
        ).push(MessageSpec::assistant(xml_demo_assistant(s, demos.last())))
    }
}

/// The messages of a prompt.
pub open spec fn xml_messages(s: SigSpec, e: ExampleSpec, demos: Seq<ExampleSpec>) -> Seq<
    MessageSpec,
> {
    (seq![MessageSpec::system(xml_system(s))] + xml_demos(s, demos)).push(
        MessageSpec::user(xml_user(s, e)),
    )
}

/// Appends, for each field that the example has, its value between its tags, and
/// a blank line if asked.
fn push_xml_parts(
    parts: &mut Vec<String>,
    fields: &Vec<(&String, &FieldDef)>,
    e: &Example,
    blank: bool,
)
    requires
        pairs_ok(fields@),
    ensures
        texts(final(parts)@) == texts(old(parts)@) + xml_parts(
            pair_fields(fields@),
            e@,
            if blank {
                seq![Seq::empty()]
            } else {
                Seq::empty()
            },
        ),
{
    let ghost before = texts(parts@);
    let ghost all = pair_fields(fields@);
    let ghost tail: Seq<Seq<char>> = if blank {
        seq![Seq::empty()]
    } else {
        Seq::empty()
    };
    let mut i: usize = 0;
    proof {
        assert(all.take(0) =~= Seq::<FieldSpec>::empty());
        assert(before + xml_parts(all.take(0), e@, tail) =~= before);
    }
    while i < fields.len()
        invariant
            i <= fields.len(),
            all == pair_fields(fields@),
            pairs_ok(fields@),
            tail == if blank {
                seq![Seq::<char>::empty()]
            } else {
                Seq::empty()
            },
            texts(parts@) == before + xml_parts(all.take(i as int), e@, tail),
        decreases fields.len() - i,
    {
        proof {
            assert(all.take(i + 1).drop_last() =~= all.take(i as int));
            assert(all.take(i + 1).last() == fields@[i as int].1@);
            assert(fields@[i as int].0@ == fields@[i as int].1@.name);
        }
        let (name, _) = fields[i];
        let ghost sofar = texts(parts@);
        if let Some(v) = e.get(name.as_str()) {
            push_text(parts, around("<", name.as_str(), ">"));
            push_text(parts, v.to_text());
            push_text(parts, around("</", name.as_str(), ">"));
            if blank {
                push_text(parts, String::new());
            }
            proof {
                let item = seq![tag_of(name@), shown(e@.store[name@]), end_tag_of(name@)];
                assert(texts(parts@) =~= sofar + (item + tail));
                let front = xml_parts(all.take(i as int), e@, tail);
                assert(before + (front + item + tail) =~= before + front + (item + tail));
            }
        }
        i = i + 1;
    }
    proof {
        assert(all.take(i as int) =~= all);
    }
}

/// Appends the template of fields.
fn push_xml_template(parts: &mut Vec<String>, fields: &Vec<(&String, &FieldDef)>)
    requires
        pairs_ok(fields@),
    ensures
        texts(final(parts)@) == texts(old(parts)@) + xml_template(pair_fields(fields@)),
{
    let ghost before = texts(parts@);
    let ghost all = pair_fields(fields@);
    let mut i: usize = 0;
    proof {
        assert(all.take(0) =~= Seq::<FieldSpec>::empty());
        assert(before + xml_template(all.take(0)) =~= before);
    }
    while i < fields.len()
        invariant
            i <= fields.len(),
            all == pair_fields(fields@),
            pairs_ok(fields@),
            texts(parts@) == before + xml_template(all.take(i as int)),
        decreases fields.len() - i,
    {
        proof {
            assert(all.take(i + 1).drop_last() =~= all.take(i as int));
            assert(all.take(i + 1).last() == fields@[i as int].1@);
            assert(fields@[i as int].0@ == fields@[i as int].1@.name);
        }
        let (name, _) = fields[i];
        let ghost sofar = texts(parts@);
        push_text(parts, around("<", name.as_str(), ">"));
        push_text(parts, around("{", name.as_str(), "}"));
        push_text(parts, around("</", name.as_str(), ">"));
        push_text(parts, String::new());
        proof {
            let item = seq![
                tag_of(name@),
                "{"@ + name@ + "}"@,
                end_tag_of(name@),
                Seq::empty(),
            ];
            assert(texts(parts@) =~= sofar + item);
            let front = xml_template(all.take(i as int));
            assert(before + (front + item) =~= before + front + item);
        }
        i = i + 1;
    }
    proof {
        assert(all.take(i as int) =~= all);
    }
}

/// The names of the tags, each between backquotes.
fn tick_tags(names: &Vec<String>) -> (r: Vec<String>)
    ensures
        texts(r@) == ticked_tags(texts(names@)),
{
    let ghost want = ticked_tags(texts(names@));
    let mut r: Vec<String> = Vec::new();
    let mut i: usize = 0;
    while i < names.len()
        invariant
            i <= names.len(),
            want == ticked_tags(texts(names@)),
            texts(r@) == want.take(i as int),
        decreases names.len() - i,
    {
        push_text(&mut r, around("`<", names[i].as_str(), ">`"));
        proof {
            assert(want.take(i + 1) =~= want.take(i as int).push(want[i as int]));
        }
        i = i + 1;
    }
    proof {
        assert(want.take(i as int) =~= want);
    }
    r
}

impl XMLAdapter {
    /// An adapter.
    pub fn new() -> (r: Self)
        ensures
            r == XMLAdapter,
    {
        XMLAdapter
    }

    /// The system message: the fields, the template and the objective.
    pub fn format_system_message(&self, signature: &Signature) -> (r: String)
        ensures
            r@ == xml_system(signature@),
    {
        let mut parts = ChatAdapter::new().header(signature, &signature.output_fields());
        push_xml_template(&mut parts, &all_fields(signature));
        push_text(&mut parts, objective(signature, &signature.output_names()));
        join(&parts, "\n")
    }

    /// The user message: the inputs and what is asked for.
    pub fn format_user_message(&self, signature: &Signature, inputs: &Example) -> (r: String)
        ensures
            r@ == xml_user(signature@, inputs@),
    {
        let mut parts: Vec<String> = Vec::new();
        push_xml_parts(&mut parts, &signature.input_fields(), inputs, true);
        proof {
            assert(texts(parts@) =~= xml_parts(
                signature@.inputs(),
                inputs@,
                seq![Seq::empty()],
            ));
        }
        let list = join(&tick_tags(&signature.output_names()), ", then ");
        push_text(
            &mut parts,
            around(
                "Respond with the corresponding output fields wrapped in XML tags ",
                list.as_str(),
                ".",
            ),
        );
        join(&parts, "\n")
    }

    /// The messages of a prompt: the system message, a pair for each
    /// demonstration, and the user message.
    pub fn format_messages(
        &self,
        signature: &Signature,
        inputs: &Example,
        demos: &Vec<Example>,
    ) -> (r: Vec<Message>)
        ensures
            message_list(r@) == xml_messages(signature@, inputs@, example_list(demos@)),
    {
        let ghost s = signature@;
        let ghost all = example_list(demos@);
        let ghost first = seq![MessageSpec::system(xml_system(s))];
        let mut messages: Vec<Message> = Vec::new();
        push_message(
            &mut messages,
            Message::system(self.format_system_message(signature).as_str()),
        );
        let mut i: usize = 0;
        proof {
            lemma_example_list(demos@);
            assert(all.take(0) =~= Seq::<ExampleSpec>::empty());
            assert(message_list(messages@) =~= first + xml_demos(s, all.take(0)));
        }
        while i < demos.len()
            invariant
                i <= demos.len(),
                s == signature@,
                all == example_list(demos@),
                all.len() == demos@.len(),
                forall|k: int| 0 <= k < demos@.len() ==> #[trigger] all[k] == demos@[k]@,
                message_list(messages@) == first + xml_demos(s, all.take(i as int)),
            decreases demos.len() - i,
        {
            let ghost demo = demos@[i as int]@;
            proof {
                assert(all.take(i + 1).drop_last() =~= all.take(i as int));
                assert(all.take(i + 1).last() == demo);
            }
            let mut user: Vec<String> = Vec::new();
            push_xml_parts(&mut user, &signature.input_fields(), &demos[i], false);
            proof {
                assert(texts(user@) =~= xml_parts(s.inputs(), demo, Seq::empty()));
            }
            push_message(&mut messages, Message::user(join(&user, "\n").as_str()));
            let mut reply: Vec<String> = Vec::new();
            push_xml_parts(&mut reply, &signature.output_fields(), &demos[i], false);
            proof {
                assert(texts(reply@) =~= xml_parts(s.outputs(), demo, Seq::empty()));
            }
            push_message(&mut messages, Message::assistant(join(&reply, "\n").as_str()));
            proof {
                let a = MessageSpec::user(xml_demo_user(s, demo));
                let b = MessageSpec::assistant(xml_demo_assistant(s, demo));
                let front = xml_demos(s, all.take(i as int));
                assert((first + front).push(a).push(b) =~= first + front.push(a).push(b));
            }
            i = i + 1;
        }
        proof {
            assert(all.take(i as int) =~= all);
        }
        push_message(
            &mut messages,
            Message::user(self.format_user_message(signature, inputs).as_str()),
        );
        messages
    }
}

impl Default for XMLAdapter {
    /// An adapter.
    fn default() -> (r: Self)
        ensures
            r == XMLAdapter,
    {
        XMLAdapter::new()
    }
}

// ---------------------------------------------------------------------------
// Replies
// ---------------------------------------------------------------------------

/// What stands between the first opening tag of a name and the closing tag that
/// follows it. A name is made of word characters.
pub open spec fn xml_section(text: Seq<char>, name: Seq<char>) -> Option<Seq<char>> {
    if !is_word(name) {
        None
    } else {
        match find_first(text, tag_of(name)) {
            Some(p) => {
                let start = p + tag_of(name).len();
                match find_from(text, end_tag_of(name), start) {
                    Some(c) => Some(trim_of(text.subrange(start, c))),
                    None => None,
                }
            },
            None => None,
        }
    }
}

/// Where a name is first opened.
pub open spec fn tag_place(text: Seq<char>, name: Seq<char>) -> int {
    find_first(text, tag_of(name)).unwrap()
}

/// The tagged texts in `text` that open before `n`, in order of their places.
pub open spec fn tagged_before(text: Seq<char>, found: Seq<(String, String)>, n: int) -> bool {
    &&& forall|k: int|
        0 <= k < found.len() ==> xml_section(text, (#[trigger] found[k]).0@) == Some(found[k].1@)
            && tag_place(text, found[k].0@) < n
    &&& forall|a: int, b: int|
        0 <= a < b < found.len() ==> tag_place(text, (#[trigger] found[a]).0@) < tag_place(
            text,
            (#[trigger] found[b]).0@,
        )
    &&& forall|name: Seq<char>|
        #![trigger xml_section(text, name)]
        xml_section(text, name) is Some && tag_place(text, name) < n ==> exists|k: int|
            0 <= k < found.len() && (#[trigger] found[k]).0@ == name
}

/// The fields of a reply that have tags.
pub open spec fn xml_tagged(output: Seq<char>, names: Seq<Seq<char>>) -> Seq<
    (Seq<char>, ValueSpec),
>
    decreases names.len(),
{
    if names.len() == 0 {
        Seq::empty()
    } else {
        let front = xml_tagged(output, names.drop_last());
        match xml_section(output, names.last()) {
            Some(v) => set_pair(front, names.last(), ValueSpec::Text(v)),
            None => front,
        }
    }
}

/// The fields of a reply. A reply without any tagged field is the first field.
pub open spec fn xml_fields(output: Seq<char>, names: Seq<Seq<char>>) -> Seq<
    (Seq<char>, ValueSpec),
> {
    or_whole(xml_tagged(output, names), output, names)
}

/// Two tags at one place open one name.
proof fn lemma_same_tag(text: Seq<char>, a: Seq<char>, b: Seq<char>, p: int)
    requires
        is_word(a),
        is_word(b),
        occurs_at(text, tag_of(a), p),
        occurs_at(text, tag_of(b), p),
    ensures
        a == b,
{
    reveal_strlit("<");
    reveal_strlit(">");
    let ta = tag_of(a);
    let tb = tag_of(b);
    let sa = text.subrange(p, p + ta.len());
    let sb = text.subrange(p, p + tb.len());
    assert forall|i: int| 0 <= i < a.len() implies #[trigger] a[i] == text[p + 1 + i] by {
        assert(sa[i + 1] == ta[i + 1]);
    }
    assert forall|i: int| 0 <= i < b.len() implies #[trigger] b[i] == text[p + 1 + i] by {
        assert(sb[i + 1] == tb[i + 1]);
    }
    assert(sa[(a.len() + 1) as int] == '>');
    assert(sb[(b.len() + 1) as int] == '>');
    if a.len() < b.len() {
        assert(b[a.len() as int] == '>');
        assert(word_char(b[a.len() as int]));
    }
    if b.len() < a.len() {
        assert(a[b.len() as int] == '>');
        assert(word_char(a[b.len() as int]));
    }
    assert(a =~= b);
}

/// A tagged text opens where its name is first opened.
proof fn lemma_tag_place(text: Seq<char>, name: Seq<char>)
    requires
        find_first(text, tag_of(name)) is Some,
    ensures
        occurs_at(text, tag_of(name), tag_place(text, name)),
        forall|j: int|
            0 <= j < tag_place(text, name) ==> !#[trigger] occurs_at(text, tag_of(name), j),
{
    lemma_find_from(text, tag_of(name), 0);
}

/// Where a word ends that begins at `from`.
fn word_end(flags: &Vec<bool>, from: usize) -> (r: usize)
    requires
        from <= flags@.len(),
    ensures
        from <= r <= flags@.len(),
        forall|i: int| from <= i < r ==> #[trigger] flags@[i],
        r < flags@.len() ==> !flags@[r as int],
{
    let mut i: usize = from;
    while i < flags.len() && flags[i]
        invariant
            from <= i <= flags@.len(),
            forall|k: int| from <= k < i ==> #[trigger] flags@[k],
        decreases flags@.len() - i,
    {
        i = i + 1;
    }
    i
}

/// The end of the tag at `i`, if there is one.
fn tag_at(v: &Vec<char>, flags: &Vec<bool>, i: usize) -> (r: Option<usize>)
    requires
        i < v@.len(),
        flags@.len() == v@.len(),
        forall|k: int| 0 <= k < v@.len() ==> #[trigger] flags@[k] == word_char(v@[k]),
    ensures
        match r {
            Some(e) => i + 2 < e <= v@.len() && is_word(v@.subrange(i + 1, e - 1)) && occurs_at(
                v@,
                tag_of(v@.subrange(i + 1, e - 1)),
                i as int,
            ),
            None => forall|name: Seq<char>|
                is_word(name) ==> !#[trigger] occurs_at(v@, tag_of(name), i as int),
        },
{
    proof {
        reveal_strlit("<");
        reveal_strlit(">");
    }
    let n: usize = v.len();
    if v[i] != '<' {
        proof {
            assert forall|name: Seq<char>| is_word(name) implies !#[trigger] occurs_at(
                v@,
                tag_of(name),
                i as int,
            ) by {
                let t = tag_of(name);
                if occurs_at(v@, t, i as int) {
                    assert(v@.subrange(i as int, i + t.len())[0] == t[0]);
                }
            }
        }
        return None;
    }
    let j: usize = word_end(flags, i + 1);
    if j > i + 1 && j < n && v[j] == '>' {
        let ghost name = v@.subrange(i + 1, j as int);
        proof {
            assert forall|k: int| 0 <= k < name.len() implies word_char(#[trigger] name[k]) by {
                assert(flags@[i + 1 + k]);
            }
            assert(v@.subrange(i as int, i + tag_of(name).len()) =~= tag_of(name));
        }
        return Some(j + 1);
    }
    proof {
        assert forall|name: Seq<char>| is_word(name) implies !#[trigger] occurs_at(
            v@,
            tag_of(name),
            i as int,
        ) by {
            let t = tag_of(name);
            if occurs_at(v@, t, i as int) {
                let s = v@.subrange(i as int, i + t.len());
                assert forall|k: int| 0 <= k < name.len() implies flags@[#[trigger] (i + 1 + k)] by {
                    assert(s[k + 1] == t[k + 1]);
                    assert(word_char(name[k]));
                }
                let e = i + 1 + name.len();
                assert(s[(name.len() + 1) as int] == '>');
                assert(v@[e] == '>');
                assert(!flags@[e]);
                if j < e {
                    assert(flags@[i + 1 + (j - i - 1)]);
                }
                if j > e {
                    assert(flags@[e]);
                }
            }
        }
    }
    None
}

/// Whether a name stands in a list of tagged texts.
fn has_tag(found: &Vec<(String, String)>, name: &str) -> (r: Option<usize>)
    ensures
        match r {
            Some(k) => k < found@.len() && found@[k as int].0@ == name@,
            None => forall|k: int| 0 <= k < found@.len() ==> (#[trigger] found@[k]).0@ != name@,
        },
{
    let mut i: usize = 0;
    while i < found.len()
        invariant
            i <= found@.len(),
            forall|k: int| 0 <= k < i ==> (#[trigger] found@[k]).0@ != name@,
        decreases found@.len() - i,
    {
        if same(found[i].0.as_str(), name) {
            return Some(i);
        }
        i = i + 1;
    }
    None
}

impl XMLAdapter {
    /// The tagged texts in a text: for each name that is opened and closed again,
    /// what stands between the first opening tag and the closing tag after it,
    /// in order of the opening tags.
    pub fn extract_xml_fields(&self, text: &str) -> (r: Vec<(String, String)>)
        ensures
            tagged_before(text@, r@, text@.len() as int),
            forall|name: Seq<char>|
                #![trigger xml_section(text@, name)]
                xml_section(text@, name) is Some ==> exists|k: int|
                    0 <= k < r@.len() && (#[trigger] r@[k]).0@ == name,
    {
        let v = chars_of(text);
        let flags = word_flags(text);
        let n: usize = v.len();
        let ghost t = text@;
        let mut found: Vec<(String, String)> = Vec::new();
        let mut i: usize = 0;
        proof {
            assert forall|name: Seq<char>|
                #![trigger xml_section(t, name)]
                xml_section(t, name) is Some && tag_place(t, name) < 0 implies exists|k: int|
                    0 <= k < found@.len() && (#[trigger] found@[k]).0@ == name by {
                lemma_tag_place(t, name);
            }
        }
        while i < n
            invariant
                i <= n,
                n == v@.len(),
                v@ == t,
                t == text@,
                flags@.len() == v@.len(),
                forall|k: int| 0 <= k < v@.len() ==> #[trigger] flags@[k] == word_char(v@[k]),
                tagged_before(t, found@, i as int),
            decreases n - i,
        {
            let ghost before = found@;
            match tag_at(&v, &flags, i) {
                Some(e) => {
                    let name = slice_text(&v, i + 1, e - 1);
                    let ghost word = name@;
                    proof {
                        assert(tag_of(word).len() == e - i) by {
                            reveal_strlit("<");
                            reveal_strlit(">");
                        }
                        lemma_find_from(t, tag_of(word), 0);
                        assert(find_first(t, tag_of(word)) is Some);
                        lemma_tag_place(t, word);
                        assert(tag_place(t, word) <= i);
                    }
                    let seen = has_tag(&found, name.as_str()).is_some();
                    if !seen {
                        let end_tag = chars_of(around("</", name.as_str(), ">").as_str());
                        let ghost ended = end_tag@;
                        let close = find_chars(&v, &end_tag, e);
                        proof {
                            lemma_find_from(t, ended, tag_place(t, word) + tag_of(word).len());
                            lemma_find_from(t, ended, e as int);
                            if close is Some && tag_place(t, word) < i {
                                assert(xml_section(t, word) is Some);
                                assert(false);
                            }
                        }
                        if let Some(c) = close {
                            let content = trim(slice_text(&v, e, c).as_str());
                            found.push((name, content));
                        }
                    }
                    proof {
                        assert forall|w: Seq<char>|
                            #![trigger xml_section(t, w)]
                            xml_section(t, w) is Some && tag_place(t, w) < i + 1 implies exists|
                            k: int,
                        |
                            0 <= k < found@.len() && (#[trigger] found@[k]).0@ == w by {
                            lemma_tag_place(t, w);
                            if tag_place(t, w) == i {
                                lemma_same_tag(t, w, word, i as int);
                                if found@.len() > before.len() {
                                    assert(found@[before.len() as int].0@ == w);
                                }
                            } else {
                                let k = choose|k: int|
                                    0 <= k < before.len() && (#[trigger] before[k]).0@ == w;
                                assert(found@[k].0@ == w);
                            }
                        }
                    }
                },
                None => {
                    proof {
                        assert forall|w: Seq<char>|
                            #![trigger xml_section(t, w)]
                            xml_section(t, w) is Some && tag_place(t, w) < i + 1 implies exists|
                            k: int,
                        |
                            0 <= k < found@.len() && (#[trigger] found@[k]).0@ == w by {
                            lemma_tag_place(t, w);
                            assert(tag_place(t, w) < i);
                        }
                    }
                },
            }
            i = i + 1;
        }
        proof {
            assert forall|name: Seq<char>|
                #![trigger xml_section(t, name)]
                xml_section(t, name) is Some implies exists|k: int|
                0 <= k < found@.len() && (#[trigger] found@[k]).0@ == name by {
                lemma_tag_place(t, name);
                assert(tag_of(name).len() > 0) by {
                    reveal_strlit("<");
                }
                assert(tag_place(t, name) < t.len());
            }
        }
        found
    }

    /// The output fields of a reply, each what stands between its tags. A reply
    /// without any of them is the first field.
    pub fn parse_output(&self, output: &str, signature: &Signature) -> (r: Result<StrMap<Value>>)
        ensures
            r matches Ok(m) && value_object(m) == xml_fields(
                output@,
                names(signature@.outputs()),
            ),
    {
        let wanted = signature.output_names();
        let found = self.extract_xml_fields(output);
        let ghost all = texts(wanted@);
        let mut result = no_fields();
        let mut i: usize = 0;
        proof {
            assert(all.take(0) =~= Seq::<Seq<char>>::empty());
        }
        while i < wanted.len()
            invariant
                i <= wanted.len(),
                all == texts(wanted@),
                tagged_before(output@, found@, output@.len() as int),
                forall|name: Seq<char>|
                    #![trigger xml_section(output@, name)]
                    xml_section(output@, name) is Some ==> exists|k: int|
                        0 <= k < found@.len() && (#[trigger] found@[k]).0@ == name,
                value_object(result) == xml_tagged(output@, all.take(i as int)),
            decreases wanted.len() - i,
        {
            proof {
                assert(all.take(i + 1).drop_last() =~= all.take(i as int));
                assert(all.take(i + 1).last() == wanted@[i as int]@);
            }
            match has_tag(&found, wanted[i].as_str()) {
                Some(k) => {
                    put_value(&mut result, wanted[i].clone(), Value::String(found[k].1.clone()));
                },
                None => {
                    proof {
                        assert(xml_section(output@, wanted@[i as int]@) is None);
                    }
                },
            }
            i = i + 1;
        }
        proof {
            assert(all.take(i as int) =~= all);
        }
        fill_first(&mut result, &wanted, output);
        Ok(result)
    }
}

// ---------------------------------------------------------------------------
// Laws
// ---------------------------------------------------------------------------

/// What a field says in a reply: its value between its tags, a line each.
pub open spec fn tagged_text(f: FieldSpec, e: ExampleSpec) -> Seq<char> {
    tag_of(f.name) + "\n"@ + shown(e.store[f.name]) + "\n"@ + end_tag_of(f.name)
}

/// What fields say in a reply, one after the other.
pub open spec fn tagged_texts(fields: Seq<FieldSpec>, e: ExampleSpec) -> Seq<char>
    decreases fields.len(),
{
    if fields.len() == 0 {
        Seq::empty()
    } else if fields.len() == 1 {
        tagged_text(fields[0], e)
    } else {
        tagged_text(fields[0], e) + "\n"@ + tagged_texts(fields.skip(1), e)
    }
}

/// Where a field begins.
pub open spec fn tagged_start(fields: Seq<FieldSpec>, e: ExampleSpec, i: int) -> int
    decreases i,
{
    if i <= 0 {
        0
    } else {
        tagged_text(fields[0], e).len() + 1 + tagged_start(fields.skip(1), e, i - 1)
    }
}

/// Fields that a reply can carry side by side: each has a value and a word for a
/// name, no value closes its own field, and none opens a later one.
pub open spec fn can_tag(fields: Seq<FieldSpec>, e: ExampleSpec) -> bool {
    &&& forall|i: int|
        0 <= i < fields.len() ==> e.store.contains_key((#[trigger] fields[i]).name) && is_word(
            fields[i].name,
        ) && !has_text(shown(e.store[fields[i].name]), end_tag_of(fields[i].name))
    &&& forall|i: int, j: int|
        0 <= j < i < fields.len() ==> !has_text(
            shown(e.store[(#[trigger] fields[j]).name]),
            tag_of((#[trigger] fields[i]).name),
        )
}

proof fn lemma_tag_letters(name: Seq<char>)
    requires
        is_word(name),
    ensures
        "\n"@ == seq!['\n'],
        is_white('\n'),
        tag_of(name) == seq!['<'] + name + seq!['>'],
        end_tag_of(name) == seq!['<', '/'] + name + seq!['>'],
        !tag_of(name).contains('\n'),
        !end_tag_of(name).contains('\n'),
        forall|i: int| 0 <= i < name.len() ==> #[trigger] name[i] != '\n' && name[i] != '<'
            && name[i] != '>' && name[i] != '/',
{
    reveal_strlit("<");
    reveal_strlit(">");
    reveal_strlit("</");
    reveal_strlit("\n");
    assert("\n"@ =~= seq!['\n']);
    assert(tag_of(name) =~= seq!['<'] + name + seq!['>']);
    assert(end_tag_of(name) =~= seq!['<', '/'] + name + seq!['>']);
    assert forall|i: int| 0 <= i < name.len() implies #[trigger] name[i] != '\n' && name[i] != '<'
        && name[i] != '>' && name[i] != '/' by {
        assert(word_char(name[i]));
    }
    assert forall|i: int| 0 <= i < tag_of(name).len() implies tag_of(name)[i] != '\n' by {
        if 1 <= i <= name.len() {
            assert(tag_of(name)[i] == name[i - 1]);
        }
    }
    assert forall|i: int| 0 <= i < end_tag_of(name).len() implies end_tag_of(name)[i] != '\n' by {
        if 2 <= i < name.len() + 2 {
            assert(end_tag_of(name)[i] == name[i - 2]);
        }
    }
}

/// A tag does not stand in the tags of another name.
proof fn lemma_tags_apart(a: Seq<char>, b: Seq<char>)
    requires
        is_word(a),
        is_word(b),
        a != b,
    ensures
        find_from(tag_of(a), tag_of(b), 0) is None,
        find_from(end_tag_of(a), tag_of(b), 0) is None,
{
    let t = tag_of(b);
    lemma_tag_letters(a);
    lemma_tag_letters(b);
    lemma_find_from(tag_of(a), t, 0);
    lemma_find_from(end_tag_of(a), t, 0);
    if find_from(tag_of(a), t, 0) is Some {
        let p = find_from(tag_of(a), t, 0).unwrap();
        let h = tag_of(a);
        assert(h.subrange(p, p + t.len())[0] == '<');
        assert(h[p] == '<');
        if p > 0 {
            if p <= a.len() {
                assert(h[p] == a[p - 1]);
            }
        } else {
            assert(h.subrange(0, h.len() as int) =~= h);
            assert(occurs_at(h, tag_of(a), 0));
            lemma_same_tag(h, a, b, 0);
        }
    }
    if find_from(end_tag_of(a), t, 0) is Some {
        let p = find_from(end_tag_of(a), t, 0).unwrap();
        let h = end_tag_of(a);
        assert(h.subrange(p, p + t.len())[0] == '<');
        assert(h[p] == '<');
        if p > 0 {
            if 2 <= p < a.len() + 2 {
                assert(h[p] == a[p - 2]);
            }
        } else {
            assert(h.subrange(p, p + t.len())[1] == t[1]);
            assert(t[1] == b[0]);
            assert(h[1] == '/');
        }
    }
}

/// A tag does not stand in what another field says.
proof fn lemma_not_in_other(f: FieldSpec, e: ExampleSpec, name: Seq<char>, rest: Seq<char>)
    requires
        is_word(f.name),
        is_word(name),
        f.name != name,
        !has_text(shown(e.store[f.name]), tag_of(name)),
    ensures
        forall|q: int|
            0 <= q <= tagged_text(f, e).len() ==> !#[trigger] occurs_at(
                tagged_text(f, e) + "\n"@ + rest,
                tag_of(name),
                q,
            ),
{
    let open = tag_of(f.name);
    let close = end_tag_of(f.name);
    let v = shown(e.store[f.name]);
    let n = tag_of(name);
    let first = tagged_text(f, e);
    let t = first + "\n"@ + rest;
    lemma_tag_letters(f.name);
    lemma_tag_letters(name);
    lemma_tags_apart(f.name, name);
    let t3 = close.push('\n') + rest;
    let t2 = v.push('\n') + t3;
    assert(t =~= open.push('\n') + t2);
    lemma_not_over_line(open, t2, n, 0);
    lemma_not_over_line(v, t3, n, 0);
    lemma_not_over_line(close, rest, n, 0);
    assert forall|q: int| 0 <= q <= first.len() implies !#[trigger] occurs_at(t, n, q) by {
        let a: int = (open.len() + 1) as int;
        let b: int = a + v.len() + 1;
        if occurs_at(t, n, q) {
            if q < a {
                assert(!occurs_at(open.push('\n') + t2, n, q));
            } else if q < b {
                assert(t.subrange(q, q + n.len()) =~= t2.subrange(q - a, q - a + n.len()));
                assert(occurs_at(t2, n, q - a));
            } else {
                assert(t.subrange(q, q + n.len()) =~= t3.subrange(q - b, q - b + n.len()));
                assert(occurs_at(t3, n, q - b));
            }
        }
    }
}

/// The tag of a field is found where the field begins.
proof fn lemma_tagged_found(fields: Seq<FieldSpec>, e: ExampleSpec, i: int)
    requires
        can_tag(fields, e),
        distinct(fields),
        0 <= i < fields.len(),
    ensures
        0 <= tagged_start(fields, e, i) <= tagged_texts(fields, e).len(),
        find_first(tagged_texts(fields, e), tag_of(fields[i].name)) == Some(
            tagged_start(fields, e, i),
        ),
        tagged_texts(fields, e).skip(tagged_start(fields, e, i)) == tagged_texts(
            fields.skip(i),
            e,
        ),
    decreases i,
{
    let n = tag_of(fields[i].name);
    let t = tagged_texts(fields, e);
    let f = fields[0];
    let more = fields.skip(1);
    let first = tagged_text(f, e);
    assert(e.store.contains_key(fields[0].name) && is_word(fields[0].name));
    lemma_tag_letters(fields[i].name);
    if i == 0 {
        assert(fields.skip(0) =~= fields);
        assert(t.skip(0) =~= t);
        assert(t.subrange(0, n.len() as int) =~= n);
        lemma_find_is(t, n, 0, 0);
    } else {
        let tail = tagged_texts(more, e);
        assert forall|k: int| 0 <= k < more.len() implies e.store.contains_key(
            (#[trigger] more[k]).name,
        ) && is_word(more[k].name) && !has_text(
            shown(e.store[more[k].name]),
            end_tag_of(more[k].name),
        ) by {
            assert(more[k] == fields[k + 1]);
        }
        assert forall|a: int, b: int| 0 <= b < a < more.len() implies !has_text(
            shown(e.store[(#[trigger] more[b]).name]),
            tag_of((#[trigger] more[a]).name),
        ) by {
            assert(more[a] == fields[a + 1] && more[b] == fields[b + 1]);
        }
        assert(distinct(more)) by {
            assert forall|a: int, b: int|
                0 <= a < more.len() && 0 <= b < more.len() && a != b implies names(more)[a]
                != names(more)[b] by {
                assert(names(more)[a] == names(fields)[a + 1]);
                assert(names(more)[b] == names(fields)[b + 1]);
            }
        }
        lemma_tagged_found(more, e, i - 1);
        assert(more[i - 1] == fields[i]);
        assert(more.skip(i - 1) =~= fields.skip(i));
        let p = tagged_start(more, e, i - 1);
        let at: int = (first.len() + 1) as int;
        assert(t == first + "\n"@ + tail);
        assert(t.skip(at) =~= tail);
        assert(t.subrange(at, t.len() as int) =~= tail);
        assert(t.skip(at + p) =~= tail.skip(p));
        lemma_find_suffix(t, n, at, 0);
        lemma_find_from(t, n, at);
        assert(names(fields)[0] != names(fields)[i]);
        assert(!has_text(shown(e.store[fields[0].name]), tag_of(fields[i].name)));
        lemma_not_in_other(f, e, fields[i].name, tail);
        assert forall|q: int| 0 <= q < at + p implies !occurs_at(t, n, q) by {
            if q <= first.len() {
                assert(!occurs_at(first + "\n"@ + tail, n, q));
            }
        }
        lemma_find_is(t, n, 0, at + p);
    }
}

/// A field is read as its value, trimmed.
proof fn lemma_tagged_read(fields: Seq<FieldSpec>, e: ExampleSpec, i: int)
    requires
        can_tag(fields, e),
        distinct(fields),
        0 <= i < fields.len(),
    ensures
        xml_section(tagged_texts(fields, e), fields[i].name) == Some(
            trim_of(shown(e.store[fields[i].name])),
        ),
{
    let name = fields[i].name;
    assert(is_word(fields[i].name));
    assert(!has_text(shown(e.store[fields[i].name]), end_tag_of(fields[i].name)));
    lemma_tagged_found(fields, e, i);
    lemma_tag_letters(name);
    let t = tagged_texts(fields, e);
    let p = tagged_start(fields, e, i);
    let open = tag_of(name);
    let close = end_tag_of(name);
    let v = shown(e.store[name]);
    let g = fields.skip(i);
    assert(g[0] == fields[i]);
    let here = tagged_texts(g, e);
    let rest: Seq<char> = if g.len() == 1 {
        Seq::empty()
    } else {
        "\n"@ + tagged_texts(g.skip(1), e)
    };
    let start = p + open.len();
    let after = t.subrange(start, t.len() as int);
    assert(here =~= open + (seq!['\n'] + v.push('\n') + close + rest));
    assert(t.skip(p).skip(open.len() as int) =~= after);
    assert(here.skip(open.len() as int) =~= seq!['\n'] + v.push('\n') + close + rest);
    lemma_close_found(v, close, rest);
    lemma_find_suffix(t, close, start, 0);
    lemma_find_from(t, close, start);
    let c = start + v.len() + 2;
    assert(t.subrange(start, c) =~= after.take((v.len() + 2) as int));
}

/// The closing tag is found after the value.
proof fn lemma_close_found(v: Seq<char>, close: Seq<char>, rest: Seq<char>)
    requires
        close.len() > 0,
        !close.contains('\n'),
        !has_text(v, close),
        is_white('\n'),
    ensures
        ({
            let t = seq!['\n'] + v.push('\n') + close + rest;
            &&& find_first(t, close) == Some((v.len() + 2) as int)
            &&& trim_of(t.take((v.len() + 2) as int)) == trim_of(v)
        }),
{
    let tail = close + rest;
    let after = v.push('\n') + tail;
    let t = seq!['\n'] + v.push('\n') + close + rest;
    let c = (v.len() + 2) as int;
    assert(t =~= seq!['\n'] + after);
    lemma_not_over_line(v, tail, close, 0);
    assert(t.subrange(c, c + close.len()) =~= close);
    assert forall|q: int| 0 <= q < c implies !occurs_at(t, close, q) by {
        if occurs_at(t, close, q) {
            if q == 0 {
                assert(t.subrange(0, close.len() as int)[0] == '\n');
                assert(close[0] == '\n');
            } else {
                assert(t.subrange(q, q + close.len()) =~= after.subrange(
                    q - 1,
                    q - 1 + close.len(),
                ));
                assert(occurs_at(after, close, q - 1));
            }
        }
    }
    lemma_find_is(t, close, 0, c);
    assert(t.take(c) =~= (seq!['\n'] + v).push('\n'));
    lemma_trim_front('\n', v);
    lemma_trim_back(seq!['\n'] + v, '\n');
}

proof fn lemma_tagged_push(fields: Seq<FieldSpec>, f: FieldSpec, e: ExampleSpec)
    requires
        fields.len() > 0,
    ensures
        tagged_texts(fields.push(f), e) == tagged_texts(fields, e) + "\n"@ + tagged_text(f, e),
    decreases fields.len(),
{
    let all = fields.push(f);
    assert(all.skip(1) =~= fields.skip(1).push(f));
    assert(all[0] == fields[0]);
    if fields.len() == 1 {
        assert(all.skip(1)[0] == f);
        assert(tagged_texts(all.skip(1), e) == tagged_text(f, e));
    } else {
        lemma_tagged_push(fields.skip(1), f, e);
        assert(tagged_texts(all, e) =~= tagged_texts(fields, e) + "\n"@ + tagged_text(f, e));
    }
}

proof fn lemma_join_push3(parts: Seq<Seq<char>>, a: Seq<char>, b: Seq<char>, c: Seq<char>)
    ensures
        join_of(parts + seq![a, b, c], "\n"@) == if parts.len() == 0 {
            a + "\n"@ + b + "\n"@ + c
        } else {
            join_of(parts, "\n"@) + "\n"@ + a + "\n"@ + b + "\n"@ + c
        },
{
    let all = parts + seq![a, b, c];
    assert(all.drop_last() =~= parts.push(a).push(b));
    assert(parts.push(a).push(b).drop_last() =~= parts.push(a));
    assert(parts.push(a).drop_last() =~= parts);
    assert(all.last() == c);
    assert(join_of(parts.push(a).push(b), "\n"@) == join_of(parts.push(a), "\n"@) + "\n"@ + b);
}

proof fn lemma_parts_are_tagged(fields: Seq<FieldSpec>, e: ExampleSpec)
    requires
        forall|i: int|
            0 <= i < fields.len() ==> e.store.contains_key((#[trigger] fields[i]).name),
    ensures
        fields.len() > 0 ==> xml_parts(fields, e, Seq::empty()).len() > 0,
        join_of(xml_parts(fields, e, Seq::empty()), "\n"@) == tagged_texts(fields, e),
    decreases fields.len(),
{
    if fields.len() > 0 {
        let front = fields.drop_last();
        let f = fields.last();
        let name = f.name;
        assert(fields =~= front.push(f));
        assert forall|i: int| 0 <= i < front.len() implies e.store.contains_key(
            (#[trigger] front[i]).name,
        ) by {
            assert(front[i] == fields[i]);
        }
        assert(e.store.contains_key(fields[fields.len() - 1].name));
        lemma_parts_are_tagged(front, e);
        let before = xml_parts(front, e, Seq::empty());
        assert(xml_parts(fields, e, Seq::empty()) =~= before + seq![
            tag_of(name),
            shown(e.store[name]),
            end_tag_of(name),
        ]);
        lemma_join_push3(before, tag_of(name), shown(e.store[name]), end_tag_of(name));
        if front.len() == 0 {
            assert(before =~= Seq::<Seq<char>>::empty());
            assert(fields[0] == f);
        } else {
            lemma_tagged_push(front, f, e);
            assert(join_of(before, "\n"@) + "\n"@ + tag_of(name) + "\n"@ + shown(e.store[name])
                + "\n"@ + end_tag_of(name) =~= tagged_texts(front, e) + "\n"@ + tagged_text(f, e));
        }
    }
}

proof fn lemma_all_tagged(output: Seq<char>, fields: Seq<FieldSpec>, e: ExampleSpec, n: int)
    requires
        0 <= n <= fields.len(),
        distinct(fields),
        forall|i: int|
            0 <= i < fields.len() ==> xml_section(output, (#[trigger] fields[i]).name) == Some(
                trim_of(shown(e.store[fields[i].name])),
            ),
    ensures
        xml_tagged(output, names(fields).take(n)) == trimmed_fields(fields, e).take(n),
    decreases n,
{
    let all = names(fields);
    let want = trimmed_fields(fields, e);
    if n == 0 {
        assert(all.take(0) =~= Seq::<Seq<char>>::empty());
        assert(want.take(0) =~= Seq::<(Seq<char>, ValueSpec)>::empty());
    } else {
        lemma_all_tagged(output, fields, e, n - 1);
        assert(all.take(n).drop_last() =~= all.take(n - 1));
        assert(all.take(n).last() == fields[n - 1].name);
        let front = want.take(n - 1);
        if names_of(front).contains(fields[n - 1].name) {
            let k = names_of(front).index_of(fields[n - 1].name);
            assert(all[k] == all[n - 1]);
        }
        assert(want.take(n) =~= front.push(want[n - 1]));
    }
}

/// A reply that is written as a demonstration is read as what was written: the
/// output fields, each with its value trimmed.
pub proof fn law_xml_reply_is_read_back(s: SigSpec, e: ExampleSpec)
    requires
        distinct(s.outputs()),
        can_tag(s.outputs(), e),
    ensures
        xml_fields(xml_demo_assistant(s, e), names(s.outputs())) == trimmed_fields(
            s.outputs(),
            e,
        ),
{
    let fields = s.outputs();
    let output = xml_demo_assistant(s, e);
    lemma_parts_are_tagged(fields, e);
    assert forall|i: int| 0 <= i < fields.len() implies xml_section(
        output,
        (#[trigger] fields[i]).name,
    ) == Some(trim_of(shown(e.store[fields[i].name]))) by {
        lemma_tagged_read(fields, e, i);
    }
    lemma_all_tagged(output, fields, e, fields.len() as int);
    assert(names(fields).take(fields.len() as int) =~= names(fields));
    assert(trimmed_fields(fields, e).take(fields.len() as int) =~= trimmed_fields(fields, e));
}

} // verus!
