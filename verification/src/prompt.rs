//! What a prompt tells a model: every field of the task, every value that is given and
//! every output that is asked for, in order.

use crate::adapter::{
    chat_demo_assistant, chat_demo_user, chat_demos, chat_messages, chat_system, chat_user,
    desc_lines, field_descriptions, field_parts, fields_not_in, header_parts, lemma_names_not_in,
    not_in, objective_of, output_requirements, template_parts, then_fields, ticked, ticked_list,
};
use crate::example::ExampleSpec;
use crate::json_adapter::{
    json_demo_assistant, json_demos, json_messages, json_system, json_user, object_lines,
};
use crate::listener::lemma_trim_end;
use crate::message::MessageSpec;
use crate::signature::{names, of_type, FieldSpec, FieldType, SigSpec};
use crate::text::{dec_of, is_digit, is_white, join_of, lemma_dec_reads, occurs_at, trim_end_of};
use crate::two_step_adapter::{first_pass, simple_demos, simple_parts, simple_text, task_parts};
use crate::value::shown;
use crate::xml_adapter::{
    ticked_tags, xml_demo_assistant, xml_demo_user, xml_demos, xml_messages, xml_parts, xml_system,
    xml_template, xml_user,
};
use vstd::prelude::*;

verus! {

// ---------------------------------------------------------------------------
// Saying things in a row
// ---------------------------------------------------------------------------

/// Pieces stand at the given places of a text, one after the other.
pub open spec fn in_a_row(text: Seq<char>, wanted: Seq<Seq<char>>, places: Seq<int>) -> bool {
    &&& places.len() == wanted.len()
    &&& forall|i: int| 0 <= i < wanted.len() ==> #[trigger] occurs_at(text, wanted[i], places[i])
    &&& forall|i: int, j: int|
        #![trigger places[i], places[j]]
        0 <= i < j < wanted.len() ==> places[i] + wanted[i].len() <= places[j]
}

/// A text says things: they stand in it one after the other.
pub open spec fn says(text: Seq<char>, wanted: Seq<Seq<char>>) -> bool {
    exists|places: Seq<int>| #[trigger] in_a_row(text, wanted, places)
}

/// What there is to say of fields, one after the other.
pub open spec fn told(fields: Seq<FieldSpec>, say: spec_fn(FieldSpec) -> Seq<Seq<char>>) -> Seq<
    Seq<char>,
>
    decreases fields.len(),
{
    if fields.len() == 0 {
        Seq::empty()
    } else {
        told(fields.drop_last(), say) + say(fields.last())
    }
}

pub proof fn lemma_says_nothing(t: Seq<char>)
    ensures
        says(t, Seq::empty()),
{
    assert(in_a_row(t, Seq::empty(), Seq::empty()));
}

pub proof fn lemma_says_both(a: Seq<char>, x: Seq<Seq<char>>, b: Seq<char>, y: Seq<Seq<char>>)
    requires
        says(a, x),
        says(b, y),
    ensures
        says(a + b, x + y),
{
    let p = choose|p: Seq<int>| #[trigger] in_a_row(a, x, p);
    let q = choose|q: Seq<int>| #[trigger] in_a_row(b, y, q);
    let n = a.len() as int;
    let r = p + Seq::new(q.len(), |i: int| q[i] + n);
    let t = a + b;
    let w = x + y;
    assert forall|i: int| 0 <= i < w.len() implies #[trigger] occurs_at(t, w[i], r[i]) by {
        if i < x.len() {
            assert(occurs_at(a, x[i], p[i]));
            assert(t.subrange(p[i], p[i] + x[i].len()) =~= a.subrange(p[i], p[i] + x[i].len()));
        } else {
            let k = i - x.len();
            assert(occurs_at(b, y[k], q[k]));
            assert(t.subrange(q[k] + n, q[k] + n + y[k].len()) =~= b.subrange(
                q[k],
                q[k] + y[k].len(),
            ));
        }
    }
    assert forall|i: int, j: int|
        #![trigger r[i], r[j]]
        0 <= i < j < w.len() implies r[i] + w[i].len() <= r[j] by {
        if j < x.len() {
            assert(p[i] + x[i].len() <= p[j]);
        } else if i < x.len() {
            assert(occurs_at(a, x[i], p[i]));
            assert(occurs_at(b, y[j - x.len()], q[j - x.len()]));
        } else {
            let k = i - x.len();
            let l = j - x.len();
            assert(q[k] + y[k].len() <= q[l]);
        }
    }
    assert(in_a_row(t, w, r));
}

pub proof fn lemma_says_itself(t: Seq<char>)
    ensures
        says(t, seq![t]),
{
    assert(t.subrange(0, t.len() as int) =~= t);
    assert(in_a_row(t, seq![t], seq![0]));
}

/// What stands within a text is said by it.
pub proof fn lemma_says_within(a: Seq<char>, t: Seq<char>, x: Seq<Seq<char>>, b: Seq<char>)
    requires
        says(t, x),
    ensures
        says(a + t + b, x),
{
    lemma_says_nothing(a);
    lemma_says_nothing(b);
    lemma_says_both(a, Seq::empty(), t, x);
    lemma_says_both(a + t, Seq::<Seq<char>>::empty() + x, b, Seq::empty());
    assert(Seq::<Seq<char>>::empty() + x + Seq::<Seq<char>>::empty() =~= x);
}

proof fn lemma_join_appended(a: Seq<Seq<char>>, b: Seq<Seq<char>>, sep: Seq<char>)
    ensures
        a.len() == 0 ==> join_of(a + b, sep) == join_of(b, sep),
        b.len() == 0 ==> join_of(a + b, sep) == join_of(a, sep),
        a.len() > 0 && b.len() > 0 ==> join_of(a + b, sep) == join_of(a, sep) + sep + join_of(
            b,
            sep,
        ),
    decreases b.len(),
{
    if a.len() == 0 {
        assert(a + b =~= b);
    } else if b.len() == 0 {
        assert(a + b =~= a);
    } else {
        lemma_join_appended(a, b.drop_last(), sep);
        assert((a + b).drop_last() =~= a + b.drop_last());
        assert((a + b).last() == b.last());
        if b.len() > 1 {
            assert(join_of(a, sep) + sep + join_of(b.drop_last(), sep) + sep + b.last()
                =~= join_of(a, sep) + sep + join_of(b, sep));
        } else {
            assert(b[0] == b.last());
        }
    }
}

/// Lists of parts that are joined say what each list says.
pub proof fn lemma_joined_say(
    a: Seq<Seq<char>>,
    x: Seq<Seq<char>>,
    b: Seq<Seq<char>>,
    y: Seq<Seq<char>>,
    sep: Seq<char>,
)
    requires
        says(join_of(a, sep), x),
        says(join_of(b, sep), y),
    ensures
        says(join_of(a + b, sep), x + y),
{
    lemma_join_appended(a, b, sep);
    let s = join_of(a, sep);
    let t = join_of(b, sep);
    lemma_says_both(s, x, t, y);
    if a.len() == 0 {
        assert(s + t =~= t);
    } else if b.len() == 0 {
        assert(s + t =~= s);
    } else {
        lemma_says_nothing(sep);
        lemma_says_both(s, x, sep, Seq::empty());
        lemma_says_both(s + sep, x + Seq::empty(), t, y);
        assert(x + Seq::<Seq<char>>::empty() + y =~= x + y);
    }
}

/// Parts that are joined are all said.
pub proof fn lemma_parts_say(parts: Seq<Seq<char>>, sep: Seq<char>)
    ensures
        says(join_of(parts, sep), parts),
    decreases parts.len(),
{
    if parts.len() == 0 {
        lemma_says_nothing(join_of(parts, sep));
        assert(parts =~= Seq::<Seq<char>>::empty());
    } else {
        lemma_parts_say(parts.drop_last(), sep);
        lemma_says_itself(parts.last());
        let l = seq![parts.last()];
        assert(join_of(l, sep) == parts.last());
        lemma_joined_say(parts.drop_last(), parts.drop_last(), l, l, sep);
        assert(parts.drop_last() + l =~= parts);
    }
}

/// A part among parts that are joined says what it says alone.
pub proof fn lemma_part_says(part: Seq<char>, x: Seq<Seq<char>>, sep: Seq<char>)
    requires
        says(part, x),
    ensures
        says(join_of(seq![part], sep), x),
{
    assert(join_of(seq![part], sep) == part);
}

// ---------------------------------------------------------------------------
// Fields
// ---------------------------------------------------------------------------

/// The inputs of a signature.
pub open spec fn given_fields(s: SigSpec) -> Seq<FieldSpec> {
    s.fields.filter(|f: FieldSpec| f.field_type == FieldType::Input)
}

/// The outputs of a signature that are not skipped.
pub open spec fn asked_fields(s: SigSpec, skip: Seq<Seq<char>>) -> Seq<FieldSpec> {
    s.fields.filter(|f: FieldSpec| f.field_type == FieldType::Output && !skip.contains(f.name))
}

/// The fields of a signature that are not skipped.
pub open spec fn shown_fields(s: SigSpec, skip: Seq<Seq<char>>) -> Seq<FieldSpec> {
    s.fields.filter(|f: FieldSpec| !skip.contains(f.name))
}

proof fn lemma_of_type(fields: Seq<FieldSpec>, t: FieldType)
    ensures
        of_type(fields, t) == fields.filter(|f: FieldSpec| f.field_type == t),
    decreases fields.len(),
{
    reveal(Seq::filter);
    if fields.len() > 0 {
        lemma_of_type(fields.drop_last(), t);
    }
}

proof fn lemma_not_skipped(fields: Seq<FieldSpec>, skip: Seq<Seq<char>>)
    ensures
        fields_not_in(fields, skip) == fields.filter(|f: FieldSpec| !skip.contains(f.name)),
    decreases fields.len(),
{
    reveal(Seq::filter);
    if fields.len() > 0 {
        lemma_not_skipped(fields.drop_last(), skip);
    }
}

proof fn lemma_asked(fields: Seq<FieldSpec>, t: FieldType, skip: Seq<Seq<char>>)
    ensures
        fields_not_in(of_type(fields, t), skip) == fields.filter(
            |f: FieldSpec| f.field_type == t && !skip.contains(f.name),
        ),
    decreases fields.len(),
{
    reveal(Seq::filter);
    if fields.len() > 0 {
        let d = fields.drop_last();
        lemma_asked(d, t, skip);
        if fields.last().field_type == t {
            assert(of_type(fields, t).drop_last() =~= of_type(d, t));
        }
    }
}

pub proof fn lemma_fields(s: SigSpec, skip: Seq<Seq<char>>)
    ensures
        s.inputs() == given_fields(s),
        fields_not_in(s.outputs(), skip) == asked_fields(s, skip),
        s.outputs() == asked_fields(s, Seq::empty()),
        fields_not_in(s.fields, skip) == shown_fields(s, skip),
        s.fields == shown_fields(s, Seq::empty()),
        not_in(names(s.outputs()), skip) == names(asked_fields(s, skip)),
{
    let none = Seq::<Seq<char>>::empty();
    lemma_of_type(s.fields, FieldType::Input);
    lemma_asked(s.fields, FieldType::Output, skip);
    lemma_asked(s.fields, FieldType::Output, none);
    lemma_none_skipped(s.outputs());
    lemma_not_skipped(s.fields, skip);
    lemma_not_skipped(s.fields, none);
    lemma_none_skipped(s.fields);
    lemma_names_not_in(s.outputs(), skip);
}

proof fn lemma_none_skipped(fields: Seq<FieldSpec>)
    ensures
        fields_not_in(fields, Seq::empty()) == fields,
    decreases fields.len(),
{
    if fields.len() > 0 {
        lemma_none_skipped(fields.drop_last());
    }
    assert(fields_not_in(fields, Seq::empty()) =~= fields);
}

/// What is said of a field that an example has: its marker, then its value.
pub open spec fn marked(e: ExampleSpec) -> spec_fn(FieldSpec) -> Seq<Seq<char>> {
    |f: FieldSpec|
        if e.store.contains_key(f.name) {
            seq!["[[ ## "@ + f.name + " ## ]]"@, shown(e.store[f.name])]
        } else {
            Seq::empty()
        }
}

proof fn lemma_field_parts_say(fields: Seq<FieldSpec>, e: ExampleSpec, tail: Seq<Seq<char>>)
    ensures
        says(join_of(field_parts(fields, e, tail), "\n"@), told(fields, marked(e))),
    decreases fields.len(),
{
    let sep = "\n"@;
    if fields.len() == 0 {
        lemma_says_nothing(join_of(field_parts(fields, e, tail), sep));
    } else {
        let d = fields.drop_last();
        lemma_field_parts_say(d, e, tail);
        let front = field_parts(d, e, tail);
        let name = fields.last().name;
        let x = told(d, marked(e));
        if e.store.contains_key(name) {
            let own = marked(e)(fields.last());
            lemma_parts_say(own, sep);
            lemma_joined_say(front, x, own, own, sep);
            lemma_says_nothing(join_of(tail, sep));
            lemma_joined_say(front + own, x + own, tail, Seq::empty(), sep);
            assert(x + own + Seq::<Seq<char>>::empty() =~= told(fields, marked(e)));
        } else {
            assert(x + Seq::<Seq<char>>::empty() =~= x);
        }
    }
}

// ---------------------------------------------------------------------------
// What is asked for
// ---------------------------------------------------------------------------

/// The marker of a field between backquotes.
pub open spec fn ticked_marker() -> spec_fn(FieldSpec) -> Seq<Seq<char>> {
    |f: FieldSpec| seq!["`[[ ## "@ + f.name + " ## ]]`"@]
}

proof fn lemma_then_fields_say(fields: Seq<FieldSpec>)
    ensures
        says(then_fields(names(fields)), told(fields, ticked_marker())),
    decreases fields.len(),
{
    let outs = names(fields);
    if fields.len() == 0 {
        lemma_says_nothing(then_fields(outs));
    } else {
        let d = fields.drop_last();
        lemma_then_fields_say(d);
        assert(outs.drop_last() =~= names(d));
        reveal_strlit(", then `[[ ## ");
        reveal_strlit(", then ");
        reveal_strlit("`[[ ## ");
        let name = outs.last();
        let own = "`[[ ## "@ + name + " ## ]]`"@;
        lemma_says_itself(own);
        lemma_says_within(", then "@, own, seq![own], Seq::empty());
        let more = ", then "@ + own + Seq::<char>::empty();
        lemma_says_both(then_fields(names(d)), told(d, ticked_marker()), more, seq![own]);
        assert(then_fields(outs) =~= then_fields(names(d)) + more);
    }
}

/// The sentence that asks for the outputs asks for each that is not skipped, by its
/// marker, in the order of the signature, and then for the marker that ends the reply.
pub proof fn law_outputs_are_asked_for(s: SigSpec, skip: Seq<Seq<char>>)
    ensures
        says(
            output_requirements(not_in(names(s.outputs()), skip)),
            told(asked_fields(s, skip), ticked_marker()).push("`[[ ## completed ## ]]`."@),
        ),
{
    lemma_fields(s, skip);
    let fields = asked_fields(s, skip);
    let outs = names(fields);
    let done = "`[[ ## completed ## ]]`."@;
    lemma_says_itself(done);
    if fields.len() == 0 {
        reveal_strlit("Respond with the marker for `[[ ## completed ## ]]`.");
        reveal_strlit("Respond with the marker for ");
        reveal_strlit("`[[ ## completed ## ]]`.");
        lemma_says_within("Respond with the marker for "@, done, seq![done], Seq::empty());
        assert("Respond with the marker for "@ + done + Seq::<char>::empty()
            =~= output_requirements(outs));
        assert(told(fields, ticked_marker()).push(done) =~= seq![done]);
    } else {
        reveal_strlit(
            "Respond with the corresponding output fields, starting with the field `[[ ## ",
        );
        reveal_strlit("Respond with the corresponding output fields, starting with the field ");
        reveal_strlit("`[[ ## ");
        reveal_strlit(", and then ending with the marker for `[[ ## completed ## ]]`.");
        reveal_strlit(", and then ending with the marker for ");
        reveal_strlit("`[[ ## completed ## ]]`.");
        let begin = "Respond with the corresponding output fields, starting with the field "@;
        let end = ", and then ending with the marker for "@;
        let own = "`[[ ## "@ + outs[0] + " ## ]]`"@;
        let rest = fields.skip(1);
        assert(outs.skip(1) =~= names(rest));
        lemma_says_itself(own);
        lemma_says_within(begin, own, seq![own], Seq::empty());
        lemma_then_fields_say(rest);
        let head = begin + own + Seq::<char>::empty();
        let more = told(rest, ticked_marker());
        lemma_says_both(head, seq![own], then_fields(names(rest)), more);
        lemma_says_within(end, done, seq![done], Seq::empty());
        let last = end + done + Seq::<char>::empty();
        lemma_says_both(head + then_fields(names(rest)), seq![own] + more, last, seq![done]);
        assert(head + then_fields(names(rest)) + last =~= output_requirements(outs));
        lemma_told_first(fields, ticked_marker());
        assert(seq![own] + more + seq![done] =~= told(fields, ticked_marker()).push(done));
    }
}

proof fn lemma_told_first(fields: Seq<FieldSpec>, say: spec_fn(FieldSpec) -> Seq<Seq<char>>)
    requires
        fields.len() > 0,
    ensures
        told(fields, say) == say(fields[0]) + told(fields.skip(1), say),
    decreases fields.len(),
{
    if fields.len() == 1 {
        assert(fields.drop_last().len() == 0 && fields.skip(1).len() == 0);
        assert(told(fields.drop_last(), say) =~= Seq::empty());
        assert(told(fields, say) =~= say(fields[0]) + told(fields.skip(1), say));
    } else {
        let d = fields.drop_last();
        lemma_told_first(d, say);
        assert(d.skip(1) =~= fields.skip(1).drop_last());
        assert(told(fields, say) =~= say(fields[0]) + told(fields.skip(1), say));
    }
}

// ---------------------------------------------------------------------------
// Descriptions
// ---------------------------------------------------------------------------

/// What describes the fields: for each its number, its name between backquotes and its
/// description, without white space at the end.
pub open spec fn descriptions(fields: Seq<FieldSpec>) -> Seq<Seq<char>> {
    Seq::new(
        fields.len(),
        |i: int|
            trim_end_of(
                dec_of((i + 1) as nat) + ". `"@ + fields[i].name + "` (str): "@ + (
                match fields[i].description {
                    Some(d) => d,
                    None => Seq::empty(),
                }),
            ),
    )
}

/// A text that was trimmed says what was said before the white space at its end.
proof fn lemma_trimmed_says(t: Seq<char>, x: Seq<Seq<char>>)
    requires
        says(t, x),
        forall|i: int|
            0 <= i < x.len() ==> (#[trigger] x[i]).len() > 0 && !is_white(x[i].last()),
    ensures
        says(trim_end_of(t), x),
{
    let n = lemma_trim_end(t);
    let p = choose|p: Seq<int>| #[trigger] in_a_row(t, x, p);
    let r = t.take(n);
    assert forall|i: int| 0 <= i < x.len() implies #[trigger] occurs_at(r, x[i], p[i]) by {
        assert(occurs_at(t, x[i], p[i]));
        let e = p[i] + x[i].len();
        assert(t.subrange(p[i], e).last() == t[e - 1]);
        assert(x[i].len() > 0);
        assert(e <= n);
        assert(r.subrange(p[i], e) =~= t.subrange(p[i], e));
    }
    assert(in_a_row(r, x, p));
}

/// Parts that are joined say the beginnings of the parts.
proof fn lemma_beginnings_say(parts: Seq<Seq<char>>, x: Seq<Seq<char>>, sep: Seq<char>)
    requires
        parts.len() == x.len(),
        forall|i: int| 0 <= i < x.len() ==> #[trigger] occurs_at(parts[i], x[i], 0),
    ensures
        says(join_of(parts, sep), x),
    decreases parts.len(),
{
    if parts.len() == 0 {
        lemma_says_nothing(join_of(parts, sep));
        assert(x =~= Seq::<Seq<char>>::empty());
    } else {
        let n = parts.len() - 1;
        let d = parts.drop_last();
        let y = x.drop_last();
        assert forall|i: int| 0 <= i < y.len() implies #[trigger] occurs_at(d[i], y[i], 0) by {
            assert(occurs_at(parts[i], x[i], 0));
        }
        lemma_beginnings_say(d, y, sep);
        assert(occurs_at(parts[n], x[n], 0));
        assert(in_a_row(parts[n], seq![x[n]], seq![0]));
        lemma_part_says(parts[n], seq![x[n]], sep);
        lemma_joined_say(d, y, seq![parts[n]], seq![x[n]], sep);
        assert(d + seq![parts[n]] =~= parts);
        assert(y + seq![x[n]] =~= x);
    }
}

proof fn lemma_descriptions_say(fields: Seq<FieldSpec>)
    ensures
        says(field_descriptions(fields), descriptions(fields)),
{
    let lines = desc_lines(fields);
    let x = descriptions(fields);
    assert forall|i: int| 0 <= i < x.len() implies #[trigger] occurs_at(lines[i], x[i], 0) && x[i]
        == trim_end_of(lines[i]) by {
        let n = lemma_trim_end(lines[i]);
        assert(lines[i].subrange(0, n) =~= lines[i].take(n));
    }
    lemma_beginnings_say(lines, x, "\n"@);
    assert forall|i: int| 0 <= i < x.len() implies (#[trigger] x[i]).len() > 0 && !is_white(
        x[i].last(),
    ) by {
        assert(occurs_at(lines[i], x[i], 0));
        let n = lemma_trim_end(lines[i]);
        let k = (i + 1) as nat;
        lemma_dec_reads(k);
        assert(is_digit(dec_of(k)[0]));
        assert(lines[i][0] == dec_of(k)[0]);
        assert(!is_white(lines[i][0]));
        assert(n > 0);
        assert(x[i].last() == lines[i][n - 1]);
    }
    lemma_trimmed_says(join_of(lines, "\n"@), x);
}

/// What a template shows of a field: its marker, then its name in braces.
pub open spec fn templated() -> spec_fn(FieldSpec) -> Seq<Seq<char>> {
    |f: FieldSpec| seq!["[[ ## "@ + f.name + " ## ]]"@, "{"@ + f.name + "}"@]
}

proof fn lemma_template_says(fields: Seq<FieldSpec>)
    ensures
        says(join_of(template_parts(fields), "\n"@), told(fields, templated())),
    decreases fields.len(),
{
    let sep = "\n"@;
    if fields.len() == 0 {
        lemma_says_nothing(join_of(template_parts(fields), sep));
    } else {
        let d = fields.drop_last();
        lemma_template_says(d);
        let front = template_parts(d);
        let x = told(d, templated());
        let own = templated()(fields.last());
        let blank = seq![Seq::<char>::empty()];
        lemma_parts_say(own, sep);
        lemma_joined_say(front, x, own, own, sep);
        lemma_says_nothing(join_of(blank, sep));
        lemma_joined_say(front + own, x + own, blank, Seq::empty(), sep);
        assert(front + own + blank =~= template_parts(fields));
        assert(x + own + Seq::<Seq<char>>::empty() =~= told(fields, templated()));
    }
}

proof fn lemma_header_says(s: SigSpec, outputs: Seq<FieldSpec>)
    ensures
        says(
            join_of(header_parts(s, outputs), "\n"@),
            descriptions(s.inputs()) + descriptions(outputs),
        ),
{
    let sep = "\n"@;
    let h = header_parts(s, outputs);
    let x = descriptions(s.inputs());
    let y = descriptions(outputs);
    let none = Seq::<Seq<char>>::empty();
    lemma_descriptions_say(s.inputs());
    lemma_descriptions_say(outputs);
    lemma_part_says(h[1], x, sep);
    lemma_part_says(h[3], y, sep);
    lemma_says_nothing(join_of(seq![h[0]], sep));
    lemma_says_nothing(join_of(seq![h[2]], sep));
    lemma_says_nothing(join_of(seq![h[4], h[5]], sep));
    lemma_joined_say(seq![h[0]], none, seq![h[1]], x, sep);
    lemma_joined_say(seq![h[2]], none, seq![h[3]], y, sep);
    lemma_joined_say(seq![h[0]] + seq![h[1]], none + x, seq![h[2]] + seq![h[3]], none + y, sep);
    lemma_joined_say(
        seq![h[0]] + seq![h[1]] + (seq![h[2]] + seq![h[3]]),
        none + x + (none + y),
        seq![h[4], h[5]],
        none,
        sep,
    );
    assert(seq![h[0]] + seq![h[1]] + (seq![h[2]] + seq![h[3]]) + seq![h[4], h[5]] =~= h);
    assert(none + x + (none + y) + none =~= x + y);
}

/// The name of a field between backquotes.
pub open spec fn ticked_name() -> spec_fn(FieldSpec) -> Seq<Seq<char>> {
    |f: FieldSpec| seq!["`"@ + f.name + "`"@]
}

/// What an objective states: the instructions, or else the inputs and the outputs by name.
pub open spec fn objective_told(s: SigSpec, outputs: Seq<FieldSpec>) -> Seq<Seq<char>> {
    if s.instructions.len() > 0 {
        seq![s.instructions]
    } else {
        told(given_fields(s), ticked_name()) + told(outputs, ticked_name())
    }
}

pub proof fn lemma_ticked(fields: Seq<FieldSpec>)
    ensures
        told(fields, ticked_name()) == ticked(names(fields)),
    decreases fields.len(),
{
    if fields.len() > 0 {
        lemma_ticked(fields.drop_last());
        assert(names(fields).drop_last() =~= names(fields.drop_last()));
    }
    assert(told(fields, ticked_name()) =~= ticked(names(fields)));
}

proof fn lemma_objective_says(s: SigSpec, outputs: Seq<FieldSpec>)
    ensures
        says(objective_of(s, names(outputs)), objective_told(s, outputs)),
{
    lemma_fields(s, Seq::empty());
    if s.instructions.len() > 0 {
        let begin = "In adhering to this structure, your objective is: \n        "@;
        lemma_says_itself(s.instructions);
        lemma_says_within(begin, s.instructions, seq![s.instructions], Seq::empty());
        assert(begin + s.instructions + Seq::<char>::empty() =~= objective_of(s, names(outputs)));
    } else {
        let begin =
            "In adhering to this structure, your objective is: \n        Given the fields "@;
        let ins = ticked(names(s.inputs()));
        let outs = ticked(names(outputs));
        lemma_ticked(s.inputs());
        lemma_ticked(outputs);
        lemma_parts_say(ins, ", "@);
        lemma_parts_say(outs, ", "@);
        lemma_says_within(begin, ticked_list(names(s.inputs())), ins, ", produce the fields "@);
        lemma_says_within(Seq::empty(), ticked_list(names(outputs)), outs, "."@);
        let a = begin + ticked_list(names(s.inputs())) + ", produce the fields "@;
        let b = Seq::<char>::empty() + ticked_list(names(outputs)) + "."@;
        lemma_says_both(a, ins, b, outs);
        assert(a + b =~= objective_of(s, names(outputs)));
    }
}

// ---------------------------------------------------------------------------
// The chat adapter
// ---------------------------------------------------------------------------

/// The system message of the chat adapter describes every input and every output that is
/// not skipped, shows the template of every field that is not skipped and of the end, and
/// states the objective.
pub proof fn law_chat_system_describes_the_task(s: SigSpec, skip: Seq<Seq<char>>)
    ensures
        says(
            chat_system(s, skip),
            descriptions(given_fields(s)) + descriptions(asked_fields(s, skip)) + told(
                shown_fields(s, skip),
                templated(),
            ) + seq!["[[ ## completed ## ]]"@] + objective_told(s, asked_fields(s, skip)),
        ),
{
    lemma_fields(s, skip);
    let sep = "\n"@;
    let outputs = asked_fields(s, skip);
    let fields = shown_fields(s, skip);
    let h = header_parts(s, outputs);
    let x = descriptions(given_fields(s)) + descriptions(outputs);
    lemma_header_says(s, outputs);
    lemma_template_says(fields);
    lemma_joined_say(h, x, template_parts(fields), told(fields, templated()), sep);
    let done = "[[ ## completed ## ]]"@;
    lemma_parts_say(seq![done], sep);
    let objective = objective_of(s, names(outputs));
    lemma_objective_says(s, outputs);
    lemma_part_says(objective, objective_told(s, outputs), sep);
    lemma_joined_say(seq![done], seq![done], seq![objective], objective_told(s, outputs), sep);
    lemma_joined_say(
        h + template_parts(fields),
        x + told(fields, templated()),
        seq![done] + seq![objective],
        seq![done] + objective_told(s, outputs),
        sep,
    );
    assert(seq![done] + seq![objective] =~= seq![done, objective]);
    assert(x + told(fields, templated()) + (seq![done] + objective_told(s, outputs)) =~= x + told(
        fields,
        templated(),
    ) + seq![done] + objective_told(s, outputs));
}

/// The user message of the chat adapter shows every input that the example has, its marker
/// before its value, and then asks for every output that is not skipped.
pub proof fn law_chat_user_shows_the_inputs(s: SigSpec, e: ExampleSpec, skip: Seq<Seq<char>>)
    ensures
        says(
            chat_user(s, e, skip),
            told(given_fields(s), marked(e)) + told(asked_fields(s, skip), ticked_marker()).push(
                "`[[ ## completed ## ]]`."@,
            ),
        ),
{
    lemma_fields(s, skip);
    law_outputs_are_asked_for(s, skip);
    let blank = seq![Seq::<char>::empty()];
    let parts = field_parts(s.inputs(), e, blank);
    let last = output_requirements(not_in(names(s.outputs()), skip));
    let asked = told(asked_fields(s, skip), ticked_marker()).push("`[[ ## completed ## ]]`."@);
    lemma_field_parts_say(s.inputs(), e, blank);
    lemma_part_says(last, asked, "\n"@);
    lemma_joined_say(parts, told(s.inputs(), marked(e)), seq![last], asked, "\n"@);
    assert(parts + seq![last] =~= parts.push(last));
}

/// A demonstration of the chat adapter shows every input that it has on the user's side,
/// and every output that it has and that is not skipped on the model's side, each with its
/// marker before its value; the model's side ends as a reply does.
pub proof fn law_chat_demo_is_shown(s: SigSpec, e: ExampleSpec, skip: Seq<Seq<char>>)
    ensures
        says(chat_demo_user(s, e), told(given_fields(s), marked(e))),
        says(
            chat_demo_assistant(s, e, skip),
            told(asked_fields(s, skip), marked(e)).push("[[ ## completed ## ]]"@),
        ),
{
    lemma_fields(s, skip);
    let none = Seq::<Seq<char>>::empty();
    let outputs = asked_fields(s, skip);
    lemma_field_parts_say(s.inputs(), e, none);
    lemma_field_parts_say(outputs, e, none);
    let done = "[[ ## completed ## ]]"@;
    let tail = seq![Seq::<char>::empty(), done, Seq::empty()];
    let sep = "\n"@;
    let blank = seq![Seq::<char>::empty()];
    lemma_parts_say(seq![done], sep);
    lemma_says_nothing(join_of(blank, sep));
    lemma_joined_say(blank, none, seq![done], seq![done], sep);
    lemma_joined_say(blank + seq![done], none + seq![done], blank, none, sep);
    assert(blank + seq![done] + blank =~= tail);
    assert(none + seq![done] + none =~= seq![done]);
    let x = told(outputs, marked(e));
    lemma_joined_say(field_parts(outputs, e, none), x, tail, seq![done], sep);
    assert(x + seq![done] =~= x.push(done));
}

/// Messages are a prompt: what the system says, then for each demonstration what the user
/// and what the model said, then what the user says.
pub open spec fn is_prompt(
    m: Seq<MessageSpec>,
    system: Seq<char>,
    demos: Seq<ExampleSpec>,
    demo_user: spec_fn(ExampleSpec) -> Seq<char>,
    demo_reply: spec_fn(ExampleSpec) -> Seq<char>,
    user: Seq<char>,
) -> bool {
    &&& m.len() == 2 * demos.len() + 2
    &&& m[0] == (MessageSpec { role: "system"@, content: system })
    &&& forall|i: int|
        #![trigger demos[i]]
        0 <= i < demos.len() ==> {
            &&& m[2 * i + 1] == (MessageSpec { role: "user"@, content: demo_user(demos[i]) })
            &&& m[2 * i + 2] == (MessageSpec {
                role: "assistant"@,
                content: demo_reply(demos[i]),
            })
        }
    &&& m.last() == (MessageSpec { role: "user"@, content: user })
}

/// The messages of demonstrations, two for each.
spec fn are_demos(
    m: Seq<MessageSpec>,
    demos: Seq<ExampleSpec>,
    demo_user: spec_fn(ExampleSpec) -> Seq<char>,
    demo_reply: spec_fn(ExampleSpec) -> Seq<char>,
) -> bool {
    &&& m.len() == 2 * demos.len()
    &&& forall|i: int|
        #![trigger demos[i]]
        0 <= i < demos.len() ==> {
            &&& m[2 * i] == MessageSpec::user(demo_user(demos[i]))
            &&& m[2 * i + 1] == MessageSpec::assistant(demo_reply(demos[i]))
        }
}

proof fn lemma_more_demos(
    m: Seq<MessageSpec>,
    demos: Seq<ExampleSpec>,
    demo_user: spec_fn(ExampleSpec) -> Seq<char>,
    demo_reply: spec_fn(ExampleSpec) -> Seq<char>,
)
    requires
        demos.len() > 0,
        are_demos(m, demos.drop_last(), demo_user, demo_reply),
    ensures
        are_demos(
            m.push(MessageSpec::user(demo_user(demos.last()))).push(
                MessageSpec::assistant(demo_reply(demos.last())),
            ),
            demos,
            demo_user,
            demo_reply,
        ),
{
    let d = demos.drop_last();
    assert forall|i: int| 0 <= i < d.len() implies d[i] == demos[i] by {}
}

proof fn lemma_prompt(
    m: Seq<MessageSpec>,
    system: Seq<char>,
    demos: Seq<ExampleSpec>,
    demo_user: spec_fn(ExampleSpec) -> Seq<char>,
    demo_reply: spec_fn(ExampleSpec) -> Seq<char>,
    user: Seq<char>,
)
    requires
        are_demos(m, demos, demo_user, demo_reply),
    ensures
        is_prompt(
            (seq![MessageSpec::system(system)] + m).push(MessageSpec::user(user)),
            system,
            demos,
            demo_user,
            demo_reply,
            user,
        ),
{
    let all = (seq![MessageSpec::system(system)] + m).push(MessageSpec::user(user));
    assert forall|i: int|
        #![trigger demos[i]]
        0 <= i < demos.len() implies all[2 * i + 1] == MessageSpec::user(demo_user(demos[i]))
        && all[2 * i + 2] == MessageSpec::assistant(demo_reply(demos[i])) by {
        assert(all[2 * i + 1] == m[2 * i] && all[2 * i + 2] == m[2 * i + 1]);
    }
}

proof fn lemma_chat_demos(s: SigSpec, demos: Seq<ExampleSpec>, skip: Seq<Seq<char>>)
    ensures
        are_demos(
            chat_demos(s, demos, skip),
            demos,
            |e: ExampleSpec| chat_demo_user(s, e),
            |e: ExampleSpec| chat_demo_assistant(s, e, skip),
        ),
    decreases demos.len(),
{
    if demos.len() > 0 {
        lemma_chat_demos(s, demos.drop_last(), skip);
        lemma_more_demos(
            chat_demos(s, demos.drop_last(), skip),
            demos,
            |e: ExampleSpec| chat_demo_user(s, e),
            |e: ExampleSpec| chat_demo_assistant(s, e, skip),
        );
    }
}

/// A prompt of the chat adapter holds the system message, every demonstration in order and
/// the user message, and nothing else.
pub proof fn law_chat_prompt_is_complete(
    s: SigSpec,
    e: ExampleSpec,
    demos: Seq<ExampleSpec>,
    skip: Seq<Seq<char>>,
)
    ensures
        is_prompt(
            chat_messages(s, e, demos, skip),
            chat_system(s, skip),
            demos,
            |d: ExampleSpec| chat_demo_user(s, d),
            |d: ExampleSpec| chat_demo_assistant(s, d, skip),
            chat_user(s, e, skip),
        ),
{
    lemma_chat_demos(s, demos, skip);
    lemma_prompt(
        chat_demos(s, demos, skip),
        chat_system(s, skip),
        demos,
        |d: ExampleSpec| chat_demo_user(s, d),
        |d: ExampleSpec| chat_demo_assistant(s, d, skip),
        chat_user(s, e, skip),
    );
}

// ---------------------------------------------------------------------------
// The JSON adapter
// ---------------------------------------------------------------------------

/// What the template of an object shows of a field: its name, quoted, before its name in
/// braces.
pub open spec fn object_line() -> spec_fn(FieldSpec) -> Seq<Seq<char>> {
    |f: FieldSpec| seq!["\""@ + f.name + "\": \"{"@ + f.name + "}\""@]
}

proof fn lemma_object_lines_say(fields: Seq<FieldSpec>)
    ensures
        says(join_of(object_lines(fields), ",\n"@), told(fields, object_line())),
    decreases fields.len(),
{
    let sep = ",\n"@;
    if fields.len() == 0 {
        lemma_says_nothing(join_of(object_lines(fields), sep));
    } else {
        let d = fields.drop_last();
        lemma_object_lines_say(d);
        reveal_strlit("  \"");
        reveal_strlit("\"");
        let name = fields.last().name;
        let own = "\""@ + name + "\": \"{"@ + name + "}\""@;
        let line = "  \""@ + name + "\": \"{"@ + name + "}\""@;
        let blanks = seq![' ', ' '];
        lemma_says_itself(own);
        lemma_says_within(blanks, own, seq![own], Seq::empty());
        assert(blanks + own + Seq::<char>::empty() =~= line);
        lemma_part_says(line, seq![own], sep);
        lemma_joined_say(object_lines(d), told(d, object_line()), seq![line], seq![own], sep);
        assert(object_lines(d) + seq![line] =~= object_lines(fields));
    }
}

/// The system message of the JSON adapter describes every input and every output, shows
/// the template of every input and an object with every output, and states the objective.
pub proof fn law_json_system_describes_the_task(s: SigSpec)
    ensures
        says(
            json_system(s),
            descriptions(given_fields(s)) + descriptions(asked_fields(s, Seq::empty())) + told(
                given_fields(s),
                templated(),
            ) + told(asked_fields(s, Seq::empty()), object_line()) + objective_told(
                s,
                asked_fields(s, Seq::empty()),
            ),
        ),
{
    lemma_fields(s, Seq::empty());
    let sep = "\n"@;
    let none = Seq::<Seq<char>>::empty();
    let outs = s.outputs();
    let h = header_parts(s, outs);
    let x = descriptions(s.inputs()) + descriptions(outs);
    let line = "Inputs will have the following structure:"@;
    let more = "Outputs will be a JSON object with the following fields."@;
    let object = "{\n"@ + join_of(object_lines(outs), ",\n"@) + "\n}"@;
    let objective = objective_of(s, names(outs));
    let t = told(s.inputs(), templated());
    let o = told(outs, object_line());
    let g = objective_told(s, outs);
    lemma_header_says(s, outs);
    lemma_says_nothing(join_of(seq![line], sep));
    lemma_joined_say(h, x, seq![line], none, sep);
    assert(h + seq![line] =~= h.push(line));
    lemma_template_says(s.inputs());
    lemma_joined_say(h.push(line), x + none, template_parts(s.inputs()), t, sep);
    lemma_object_lines_say(outs);
    lemma_says_within("{\n"@, join_of(object_lines(outs), ",\n"@), o, "\n}"@);
    lemma_part_says(object, o, sep);
    lemma_objective_says(s, outs);
    lemma_part_says(objective, g, sep);
    lemma_joined_say(seq![object], o, seq![objective], g, sep);
    lemma_says_nothing(join_of(seq![more], sep));
    lemma_joined_say(seq![more], none, seq![object] + seq![objective], o + g, sep);
    lemma_joined_say(
        h.push(line) + template_parts(s.inputs()),
        x + none + t,
        seq![more] + (seq![object] + seq![objective]),
        none + (o + g),
        sep,
    );
    assert(seq![more] + (seq![object] + seq![objective]) =~= seq![more, object, objective]);
    assert(x + none + t + (none + (o + g)) =~= x + t + o + g);
}

/// The user message of the JSON adapter shows every input that the example has, its marker
/// before its value, and then asks for every output by name.
pub proof fn law_json_user_shows_the_inputs(s: SigSpec, e: ExampleSpec)
    ensures
        says(
            json_user(s, e),
            told(given_fields(s), marked(e)) + told(
                asked_fields(s, Seq::empty()),
                ticked_name(),
            ),
        ),
{
    lemma_fields(s, Seq::empty());
    let blank = seq![Seq::<char>::empty()];
    let parts = field_parts(s.inputs(), e, blank);
    let begin = "Respond with a JSON object in the following order of fields: "@;
    let outs = ticked(names(s.outputs()));
    let last = begin + join_of(outs, ", then "@) + "."@;
    lemma_field_parts_say(s.inputs(), e, blank);
    lemma_ticked(s.outputs());
    lemma_parts_say(outs, ", then "@);
    lemma_says_within(begin, join_of(outs, ", then "@), outs, "."@);
    lemma_part_says(last, outs, "\n"@);
    lemma_joined_say(parts, told(s.inputs(), marked(e)), seq![last], outs, "\n"@);
    assert(parts + seq![last] =~= parts.push(last));
}

proof fn lemma_json_demos(s: SigSpec, demos: Seq<ExampleSpec>)
    ensures
        are_demos(
            json_demos(s, demos),
            demos,
            |e: ExampleSpec| chat_demo_user(s, e),
            |e: ExampleSpec| json_demo_assistant(s, e),
        ),
    decreases demos.len(),
{
    if demos.len() > 0 {
        lemma_json_demos(s, demos.drop_last());
        lemma_more_demos(
            json_demos(s, demos.drop_last()),
            demos,
            |e: ExampleSpec| chat_demo_user(s, e),
            |e: ExampleSpec| json_demo_assistant(s, e),
        );
    }
}

/// A prompt of the JSON adapter holds the system message, every demonstration in order and
/// the user message, and nothing else.
pub proof fn law_json_prompt_is_complete(s: SigSpec, e: ExampleSpec, demos: Seq<ExampleSpec>)
    ensures
        is_prompt(
            json_messages(s, e, demos),
            json_system(s),
            demos,
            |d: ExampleSpec| chat_demo_user(s, d),
            |d: ExampleSpec| json_demo_assistant(s, d),
            json_user(s, e),
        ),
{
    lemma_json_demos(s, demos);
    lemma_prompt(
        json_demos(s, demos),
        json_system(s),
        demos,
        |d: ExampleSpec| chat_demo_user(s, d),
        |d: ExampleSpec| json_demo_assistant(s, d),
        json_user(s, e),
    );
}

// ---------------------------------------------------------------------------
// The XML adapter
// ---------------------------------------------------------------------------

/// What is said of a field that an example has: its value between its tags.
pub open spec fn tagged(e: ExampleSpec) -> spec_fn(FieldSpec) -> Seq<Seq<char>> {
    |f: FieldSpec|
        if e.store.contains_key(f.name) {
            seq!["<"@ + f.name + ">"@, shown(e.store[f.name]), "</"@ + f.name + ">"@]
        } else {
            Seq::empty()
        }
}

/// What a template shows of a field: its name in braces between its tags.
pub open spec fn tag_template() -> spec_fn(FieldSpec) -> Seq<Seq<char>> {
    |f: FieldSpec| seq!["<"@ + f.name + ">"@, "{"@ + f.name + "}"@, "</"@ + f.name + ">"@]
}

/// The tag of a field between backquotes.
pub open spec fn ticked_tag() -> spec_fn(FieldSpec) -> Seq<Seq<char>> {
    |f: FieldSpec| seq!["`<"@ + f.name + ">`"@]
}

proof fn lemma_xml_parts_say(fields: Seq<FieldSpec>, e: ExampleSpec, tail: Seq<Seq<char>>)
    ensures
        says(join_of(xml_parts(fields, e, tail), "\n"@), told(fields, tagged(e))),
    decreases fields.len(),
{
    let sep = "\n"@;
    if fields.len() == 0 {
        lemma_says_nothing(join_of(xml_parts(fields, e, tail), sep));
    } else {
        let d = fields.drop_last();
        lemma_xml_parts_say(d, e, tail);
        let front = xml_parts(d, e, tail);
        let x = told(d, tagged(e));
        if e.store.contains_key(fields.last().name) {
            let own = tagged(e)(fields.last());
            lemma_parts_say(own, sep);
            lemma_joined_say(front, x, own, own, sep);
            lemma_says_nothing(join_of(tail, sep));
            lemma_joined_say(front + own, x + own, tail, Seq::empty(), sep);
            assert(x + own + Seq::<Seq<char>>::empty() =~= told(fields, tagged(e)));
        } else {
            assert(x + Seq::<Seq<char>>::empty() =~= x);
        }
    }
}

proof fn lemma_xml_template_says(fields: Seq<FieldSpec>)
    ensures
        says(join_of(xml_template(fields), "\n"@), told(fields, tag_template())),
    decreases fields.len(),
{
    let sep = "\n"@;
    if fields.len() == 0 {
        lemma_says_nothing(join_of(xml_template(fields), sep));
    } else {
        let d = fields.drop_last();
        lemma_xml_template_says(d);
        let front = xml_template(d);
        let x = told(d, tag_template());
        let own = tag_template()(fields.last());
        let blank = seq![Seq::<char>::empty()];
        lemma_parts_say(own, sep);
        lemma_joined_say(front, x, own, own, sep);
        lemma_says_nothing(join_of(blank, sep));
        lemma_joined_say(front + own, x + own, blank, Seq::empty(), sep);
        assert(front + own + blank =~= xml_template(fields));
        assert(x + own + Seq::<Seq<char>>::empty() =~= told(fields, tag_template()));
    }
}

proof fn lemma_ticked_tags(fields: Seq<FieldSpec>)
    ensures
        told(fields, ticked_tag()) == ticked_tags(names(fields)),
    decreases fields.len(),
{
    if fields.len() > 0 {
        lemma_ticked_tags(fields.drop_last());
        assert(names(fields).drop_last() =~= names(fields.drop_last()));
    }
    assert(told(fields, ticked_tag()) =~= ticked_tags(names(fields)));
}

/// The system message of the XML adapter describes every input and every output, shows the
/// template of every field, and states the objective.
pub proof fn law_xml_system_describes_the_task(s: SigSpec)
    ensures
        says(
            xml_system(s),
            descriptions(given_fields(s)) + descriptions(asked_fields(s, Seq::empty())) + told(
                s.fields,
                tag_template(),
            ) + objective_told(s, asked_fields(s, Seq::empty())),
        ),
{
    lemma_fields(s, Seq::empty());
    let sep = "\n"@;
    let outs = s.outputs();
    let h = header_parts(s, outs);
    let x = descriptions(s.inputs()) + descriptions(outs);
    let t = told(s.fields, tag_template());
    let objective = objective_of(s, names(outs));
    let g = objective_told(s, outs);
    lemma_header_says(s, outs);
    lemma_xml_template_says(s.fields);
    lemma_joined_say(h, x, xml_template(s.fields), t, sep);
    lemma_objective_says(s, outs);
    lemma_part_says(objective, g, sep);
    lemma_joined_say(h + xml_template(s.fields), x + t, seq![objective], g, sep);
    assert(h + xml_template(s.fields) + seq![objective] =~= (h + xml_template(s.fields)).push(
        objective,
    ));
}

/// The user message of the XML adapter shows every input that the example has between its
/// tags, and then asks for every output by its tag.
pub proof fn law_xml_user_shows_the_inputs(s: SigSpec, e: ExampleSpec)
    ensures
        says(
            xml_user(s, e),
            told(given_fields(s), tagged(e)) + told(asked_fields(s, Seq::empty()), ticked_tag()),
        ),
{
    lemma_fields(s, Seq::empty());
    let blank = seq![Seq::<char>::empty()];
    let parts = xml_parts(s.inputs(), e, blank);
    let begin = "Respond with the corresponding output fields wrapped in XML tags "@;
    let outs = ticked_tags(names(s.outputs()));
    let last = begin + join_of(outs, ", then "@) + "."@;
    lemma_xml_parts_say(s.inputs(), e, blank);
    lemma_ticked_tags(s.outputs());
    lemma_parts_say(outs, ", then "@);
    lemma_says_within(begin, join_of(outs, ", then "@), outs, "."@);
    lemma_part_says(last, outs, "\n"@);
    lemma_joined_say(parts, told(s.inputs(), tagged(e)), seq![last], outs, "\n"@);
    assert(parts + seq![last] =~= parts.push(last));
}

/// A demonstration of the XML adapter shows every input that it has on the user's side and
/// every output that it has on the model's side, each between its tags.
pub proof fn law_xml_demo_is_shown(s: SigSpec, e: ExampleSpec)
    ensures
        says(xml_demo_user(s, e), told(given_fields(s), tagged(e))),
        says(xml_demo_assistant(s, e), told(asked_fields(s, Seq::empty()), tagged(e))),
{
    lemma_fields(s, Seq::empty());
    lemma_xml_parts_say(s.inputs(), e, Seq::empty());
    lemma_xml_parts_say(s.outputs(), e, Seq::empty());
}

proof fn lemma_xml_demos(s: SigSpec, demos: Seq<ExampleSpec>)
    ensures
        are_demos(
            xml_demos(s, demos),
            demos,
            |e: ExampleSpec| xml_demo_user(s, e),
            |e: ExampleSpec| xml_demo_assistant(s, e),
        ),
    decreases demos.len(),
{
    if demos.len() > 0 {
        lemma_xml_demos(s, demos.drop_last());
        lemma_more_demos(
            xml_demos(s, demos.drop_last()),
            demos,
            |e: ExampleSpec| xml_demo_user(s, e),
            |e: ExampleSpec| xml_demo_assistant(s, e),
        );
    }
}

/// A prompt of the XML adapter holds the system message, every demonstration in order and
/// the user message, and nothing else.
pub proof fn law_xml_prompt_is_complete(s: SigSpec, e: ExampleSpec, demos: Seq<ExampleSpec>)
    ensures
        is_prompt(
            xml_messages(s, e, demos),
            xml_system(s),
            demos,
            |d: ExampleSpec| xml_demo_user(s, d),
            |d: ExampleSpec| xml_demo_assistant(s, d),
            xml_user(s, e),
        ),
{
    lemma_xml_demos(s, demos);
    lemma_prompt(
        xml_demos(s, demos),
        xml_system(s),
        demos,
        |d: ExampleSpec| xml_demo_user(s, d),
        |d: ExampleSpec| xml_demo_assistant(s, d),
        xml_user(s, e),
    );
}

// ---------------------------------------------------------------------------
// The adapter in two steps
// ---------------------------------------------------------------------------

/// What is said of a field that an example has in plain words: its name, then its value.
pub open spec fn plainly(e: ExampleSpec) -> spec_fn(FieldSpec) -> Seq<Seq<char>> {
    |f: FieldSpec|
        if e.store.contains_key(f.name) {
            seq![f.name + ": "@ + shown(e.store[f.name])]
        } else {
            Seq::empty()
        }
}

proof fn lemma_simple_parts(fields: Seq<FieldSpec>, e: ExampleSpec)
    ensures
        simple_parts(fields, e) == told(fields, plainly(e)),
    decreases fields.len(),
{
    if fields.len() > 0 {
        lemma_simple_parts(fields.drop_last(), e);
        assert(simple_parts(fields, e) =~= told(fields, plainly(e)));
    }
}

/// Fields in plain words are all that the example has, each its name before its value,
/// without the white space at the end.
pub proof fn law_fields_are_put_plainly(s: SigSpec, e: ExampleSpec)
    ensures
        exists|t: Seq<char>| #[trigger]
            says(t, told(given_fields(s), plainly(e))) && simple_text(s.inputs(), e)
                == trim_end_of(t),
        exists|t: Seq<char>| #[trigger]
            says(t, told(asked_fields(s, Seq::empty()), plainly(e))) && simple_text(s.outputs(), e)
                == trim_end_of(t),
{
    lemma_fields(s, Seq::empty());
    lemma_simple_parts(s.inputs(), e);
    lemma_simple_parts(s.outputs(), e);
    lemma_parts_say(simple_parts(s.inputs(), e), "\n\n"@);
    lemma_parts_say(simple_parts(s.outputs(), e), "\n\n"@);
}

/// The task in plain words describes every input and every output, and gives the
/// instructions where there are any.
pub proof fn law_task_is_put_plainly(s: SigSpec)
    ensures
        says(
            join_of(task_parts(s), "\n"@),
            descriptions(given_fields(s)) + descriptions(asked_fields(s, Seq::empty())) + (
            if s.instructions.len() > 0 {
                seq![s.instructions]
            } else {
                Seq::empty()
            }),
        ),
{
    lemma_fields(s, Seq::empty());
    let sep = "\n"@;
    let none = Seq::<Seq<char>>::empty();
    let p = task_parts(s);
    let x = descriptions(s.inputs());
    let y = descriptions(s.outputs());
    lemma_descriptions_say(s.inputs());
    lemma_descriptions_say(s.outputs());
    lemma_says_within(
        "As input, you will be provided with:\n"@,
        field_descriptions(s.inputs()),
        x,
        Seq::empty(),
    );
    assert(p[1] =~= "As input, you will be provided with:\n"@ + field_descriptions(s.inputs())
        + Seq::<char>::empty());
    lemma_says_within(
        "Your outputs must contain:\n"@,
        field_descriptions(s.outputs()),
        y,
        Seq::empty(),
    );
    assert(p[2] =~= "Your outputs must contain:\n"@ + field_descriptions(s.outputs()) + Seq::<
        char,
    >::empty());
    lemma_part_says(p[1], x, sep);
    lemma_part_says(p[2], y, sep);
    lemma_says_nothing(join_of(seq![p[0]], sep));
    lemma_says_nothing(join_of(seq![p[3]], sep));
    lemma_joined_say(seq![p[0]], none, seq![p[1]], x, sep);
    lemma_joined_say(seq![p[2]], y, seq![p[3]], none, sep);
    lemma_joined_say(seq![p[0]] + seq![p[1]], none + x, seq![p[2]] + seq![p[3]], y + none, sep);
    let four = seq![p[0]] + seq![p[1]] + (seq![p[2]] + seq![p[3]]);
    assert(none + x + (y + none) =~= x + y);
    if s.instructions.len() > 0 {
        let i = s.instructions;
        lemma_says_itself(i);
        lemma_says_within("Specific instructions: "@, i, seq![i], Seq::empty());
        assert(p[4] =~= "Specific instructions: "@ + i + Seq::<char>::empty());
        lemma_part_says(p[4], seq![i], sep);
        lemma_joined_say(four, x + y, seq![p[4]], seq![i], sep);
        assert(four + seq![p[4]] =~= p);
    } else {
        assert(four =~= p);
        assert(x + y + none =~= x + y);
    }
}

proof fn lemma_simple_demos(s: SigSpec, demos: Seq<ExampleSpec>)
    ensures
        are_demos(
            simple_demos(s, demos),
            demos,
            |e: ExampleSpec| simple_text(s.inputs(), e),
            |e: ExampleSpec| simple_text(s.outputs(), e),
        ),
    decreases demos.len(),
{
    if demos.len() > 0 {
        lemma_simple_demos(s, demos.drop_last());
        lemma_more_demos(
            simple_demos(s, demos.drop_last()),
            demos,
            |e: ExampleSpec| simple_text(s.inputs(), e),
            |e: ExampleSpec| simple_text(s.outputs(), e),
        );
    }
}

/// The first prompt in two steps holds the task, every demonstration in order and the
/// inputs, all in plain words.
pub proof fn law_first_prompt_is_complete(s: SigSpec, e: ExampleSpec, demos: Seq<ExampleSpec>)
    ensures
        is_prompt(
            first_pass(s, e, demos),
            join_of(task_parts(s), "\n"@),
            demos,
            |d: ExampleSpec| simple_text(s.inputs(), d),
            |d: ExampleSpec| simple_text(s.outputs(), d),
            simple_text(s.inputs(), e),
        ),
{
    lemma_simple_demos(s, demos);
    lemma_prompt(
        simple_demos(s, demos),
        join_of(task_parts(s), "\n"@),
        demos,
        |d: ExampleSpec| simple_text(s.inputs(), d),
        |d: ExampleSpec| simple_text(s.outputs(), d),
        simple_text(s.inputs(), e),
    );
}

// ---------------------------------------------------------------------------
// Nothing else
// ---------------------------------------------------------------------------

/// How many characters pieces take, each with one more to part it from the next.
pub open spec fn weight(parts: Seq<Seq<char>>) -> nat
    decreases parts.len(),
{
    if parts.len() == 0 {
        0
    } else {
        weight(parts.drop_last()) + parts.last().len() + 1
    }
}

proof fn lemma_weight_both(a: Seq<Seq<char>>, b: Seq<Seq<char>>)
    ensures
        weight(a + b) == weight(a) + weight(b),
    decreases b.len(),
{
    if b.len() == 0 {
        assert(a + b =~= a);
    } else {
        lemma_weight_both(a, b.drop_last());
        assert((a + b).drop_last() =~= a + b.drop_last());
    }
}

proof fn lemma_weight_one(t: Seq<char>)
    ensures
        weight(seq![t]) == t.len() + 1,
{
    let one = seq![t];
    assert(one.drop_last().len() == 0);
    assert(weight(one.drop_last()) == 0);
    assert(one.last() == t);
}

proof fn lemma_joined_weight(parts: Seq<Seq<char>>)
    ensures
        parts.len() > 0 ==> join_of(parts, "\n"@).len() + 1 == weight(parts),
        parts.len() == 0 ==> join_of(parts, "\n"@).len() == 0 && weight(parts) == 0,
    decreases parts.len(),
{
    reveal_strlit("\n");
    assert("\n"@.len() == 1);
    if parts.len() > 1 {
        lemma_joined_weight(parts.drop_last());
    } else if parts.len() == 1 {
        assert(weight(parts.drop_last()) == 0);
        assert(parts[0] == parts.last());
    }
}

/// What is said of a field that an example has, with a blank line after it.
pub open spec fn with_blank(say: spec_fn(FieldSpec) -> Seq<Seq<char>>) -> spec_fn(
    FieldSpec,
) -> Seq<Seq<char>> {
    |f: FieldSpec|
        if say(f).len() > 0 {
            say(f).push(Seq::empty())
        } else {
            Seq::empty()
        }
}

proof fn lemma_field_parts_are(fields: Seq<FieldSpec>, e: ExampleSpec)
    ensures
        field_parts(fields, e, Seq::empty()) == told(fields, marked(e)),
        field_parts(fields, e, seq![Seq::empty()]) == told(fields, with_blank(marked(e))),
        xml_parts(fields, e, Seq::empty()) == told(fields, tagged(e)),
        xml_parts(fields, e, seq![Seq::empty()]) == told(fields, with_blank(tagged(e))),
    decreases fields.len(),
{
    if fields.len() > 0 {
        lemma_field_parts_are(fields.drop_last(), e);
    }
    assert(field_parts(fields, e, Seq::empty()) =~= told(fields, marked(e)));
    assert(field_parts(fields, e, seq![Seq::empty()]) =~= told(fields, with_blank(marked(e))));
    assert(xml_parts(fields, e, Seq::empty()) =~= told(fields, tagged(e)));
    assert(xml_parts(fields, e, seq![Seq::empty()]) =~= told(fields, with_blank(tagged(e))));
}

/// The user messages of the adapters show the inputs, what is asked for, and nothing else:
/// they take as many characters as these do, with line breaks and blank lines between them.
pub proof fn law_users_show_nothing_else(s: SigSpec, e: ExampleSpec, skip: Seq<Seq<char>>)
    ensures
        chat_user(s, e, skip).len() == weight(told(given_fields(s), with_blank(marked(e))))
            + output_requirements(names(asked_fields(s, skip))).len(),
        json_user(s, e).len() == weight(told(given_fields(s), with_blank(marked(e)))) + (
        "Respond with a JSON object in the following order of fields: "@ + join_of(
            told(asked_fields(s, Seq::empty()), ticked_name()),
            ", then "@,
        ) + "."@).len(),
        xml_user(s, e).len() == weight(told(given_fields(s), with_blank(tagged(e)))) + (
        "Respond with the corresponding output fields wrapped in XML tags "@ + join_of(
            told(asked_fields(s, Seq::empty()), ticked_tag()),
            ", then "@,
        ) + "."@).len(),
{
    lemma_fields(s, skip);
    lemma_ticked(s.outputs());
    lemma_ticked_tags(s.outputs());
    let ins = s.inputs();
    lemma_field_parts_are(ins, e);
    let blank = seq![Seq::<char>::empty()];
    let a = field_parts(ins, e, blank);
    let r = output_requirements(not_in(names(s.outputs()), skip));
    lemma_joined_weight(a.push(r));
    assert(a.push(r).drop_last() =~= a);
    let j = "Respond with a JSON object in the following order of fields: "@ + join_of(
        ticked(names(s.outputs())),
        ", then "@,
    ) + "."@;
    lemma_joined_weight(a.push(j));
    assert(a.push(j).drop_last() =~= a);
    let b = xml_parts(ins, e, blank);
    let x = "Respond with the corresponding output fields wrapped in XML tags "@ + join_of(
        ticked_tags(names(s.outputs())),
        ", then "@,
    ) + "."@;
    lemma_joined_weight(b.push(x));
    assert(b.push(x).drop_last() =~= b);
}

/// The demonstrations of the adapters show the fields that they have and nothing else: they
/// take as many characters as these do, with line breaks between them.
pub proof fn law_demos_show_nothing_else(s: SigSpec, e: ExampleSpec, skip: Seq<Seq<char>>)
    ensures
        ({
            let ins = told(given_fields(s), marked(e));
            let outs = told(asked_fields(s, skip), marked(e));
            let xml_ins = told(given_fields(s), tagged(e));
            let xml_outs = told(asked_fields(s, Seq::empty()), tagged(e));
            &&& ins.len() > 0 ==> chat_demo_user(s, e).len() + 1 == weight(ins)
            &&& chat_demo_assistant(s, e, skip).len() + 1 == weight(outs)
                + "[[ ## completed ## ]]"@.len() + 3
            &&& xml_ins.len() > 0 ==> xml_demo_user(s, e).len() + 1 == weight(xml_ins)
            &&& xml_outs.len() > 0 ==> xml_demo_assistant(s, e).len() + 1 == weight(xml_outs)
        }),
{
    lemma_fields(s, skip);
    lemma_field_parts_are(given_fields(s), e);
    lemma_field_parts_are(asked_fields(s, skip), e);
    lemma_field_parts_are(asked_fields(s, Seq::empty()), e);
    lemma_joined_weight(told(given_fields(s), marked(e)));
    lemma_joined_weight(told(given_fields(s), tagged(e)));
    lemma_joined_weight(told(asked_fields(s, Seq::empty()), tagged(e)));
    let outs = told(asked_fields(s, skip), marked(e));
    let none = Seq::<char>::empty();
    let tail = seq![none, "[[ ## completed ## ]]"@, none];
    lemma_joined_weight(outs + tail);
    lemma_weight_both(outs, tail);
    assert(tail.drop_last() =~= seq![none, "[[ ## completed ## ]]"@]);
    assert(tail.drop_last().drop_last() =~= seq![none]);
    assert(tail.drop_last().drop_last().drop_last() =~= Seq::<Seq<char>>::empty());
    assert(weight(Seq::<Seq<char>>::empty()) == 0);
    assert(weight(seq![none]) == 1);
    assert(weight(tail.drop_last()) == "[[ ## completed ## ]]"@.len() + 2);
}

/// The sentence that asks for the outputs asks for nothing else: it takes as many characters
/// as the markers of the outputs that are not skipped and the words between them.
pub proof fn law_nothing_else_is_asked_for(s: SigSpec, skip: Seq<Seq<char>>)
    requires
        asked_fields(s, skip).len() > 0,
    ensures
        output_requirements(not_in(names(s.outputs()), skip)).len() + ", then "@.len() == weight(
            told(asked_fields(s, skip), ticked_marker()),
        ) + (", then "@.len() - 1) * asked_fields(s, skip).len()
            + "Respond with the corresponding output fields, starting with the field "@.len()
            + ", and then ending with the marker for `[[ ## completed ## ]]`."@.len(),
{
    lemma_fields(s, skip);
    let fields = asked_fields(s, skip);
    let outs = names(fields);
    reveal_strlit("Respond with the corresponding output fields, starting with the field `[[ ## ");
    reveal_strlit("Respond with the corresponding output fields, starting with the field ");
    reveal_strlit(" ## ]]`");
    reveal_strlit("`[[ ## ");
    reveal_strlit(", then ");
    let rest = fields.skip(1);
    assert(outs.skip(1) =~= names(rest));
    lemma_then_fields_weigh(rest);
    lemma_told_first(fields, ticked_marker());
    let own = ticked_marker()(fields[0]);
    lemma_weight_both(own, told(rest, ticked_marker()));
    lemma_weight_one(own[0]);
    assert(own =~= seq![own[0]]);
    let k = (", then "@.len() - 1) as int;
    assert(k * fields.len() == k * rest.len() + k) by (nonlinear_arith)
        requires
            fields.len() == rest.len() + 1,
    ;
}

proof fn lemma_then_fields_weigh(fields: Seq<FieldSpec>)
    ensures
        then_fields(names(fields)).len() == weight(told(fields, ticked_marker())) + (
        ", then "@.len() - 1) * fields.len(),
    decreases fields.len(),
{
    let k = (", then "@.len() - 1) as int;
    if fields.len() == 0 {
        assert(k * fields.len() == 0) by (nonlinear_arith)
            requires
                fields.len() == 0,
        ;
    } else {
        let d = fields.drop_last();
        lemma_then_fields_weigh(d);
        assert(names(fields).drop_last() =~= names(d));
        reveal_strlit(", then `[[ ## ");
        reveal_strlit(", then ");
        reveal_strlit("`[[ ## ");
        let own = ticked_marker()(fields.last());
        lemma_weight_both(told(d, ticked_marker()), own);
        lemma_weight_one(own[0]);
        assert(own =~= seq![own[0]]);
        assert(k * fields.len() == k * d.len() + k) by (nonlinear_arith)
            requires
                fields.len() == d.len() + 1,
        ;
    }
}

/// The system message of the chat adapter describes nothing else: it takes no more
/// characters than its sentences, the descriptions and the templates of the fields that are
/// not skipped, and the objective do, each on lines of its own.
pub proof fn law_system_shows_nothing_else(s: SigSpec, skip: Seq<Seq<char>>)
    ensures
        chat_system(s, skip).len() + 1 <= weight(
            seq![
                "Your input fields are:"@,
                "Your output fields are:"@,
                "All interactions will be structured in the following way, with the appropriate values filled in."@,
                Seq::empty(),
                "[[ ## completed ## ]]"@,
            ],
        ) + weight(desc_lines(given_fields(s))) + weight(desc_lines(asked_fields(s, skip))) + 2
            + weight(told(shown_fields(s, skip), with_blank(templated()))) + objective_of(
            s,
            names(asked_fields(s, skip)),
        ).len() + 1,
{
    lemma_fields(s, skip);
    let ins = given_fields(s);
    let outs = asked_fields(s, skip);
    let fields = shown_fields(s, skip);
    let h = header_parts(s, outs);
    let t = template_parts(fields);
    let done = "[[ ## completed ## ]]"@;
    let g = objective_of(s, names(outs));
    let last = seq![done, g];
    lemma_joined_weight(h + t + last);
    lemma_weight_both(h + t, last);
    lemma_weight_both(h, t);
    lemma_template_is(fields);
    lemma_description_length(ins);
    lemma_description_length(outs);
    lemma_weigh_two(done, g);
    lemma_weigh_header(h);
    let five = seq![h[0], h[2], h[4], h[5], done];
    lemma_weigh_five(five);
}

proof fn lemma_template_is(fields: Seq<FieldSpec>)
    ensures
        template_parts(fields) == told(fields, with_blank(templated())),
    decreases fields.len(),
{
    if fields.len() > 0 {
        lemma_template_is(fields.drop_last());
    }
    assert(template_parts(fields) =~= told(fields, with_blank(templated())));
}

proof fn lemma_description_length(fields: Seq<FieldSpec>)
    ensures
        field_descriptions(fields).len() <= weight(desc_lines(fields)),
{
    let lines = desc_lines(fields);
    lemma_joined_weight(lines);
    let n = lemma_trim_end(join_of(lines, "\n"@));
}

proof fn lemma_weigh_two(a: Seq<char>, b: Seq<char>)
    ensures
        weight(seq![a, b]) == a.len() + b.len() + 2,
{
    assert(seq![a, b] =~= seq![a] + seq![b]);
    lemma_weight_both(seq![a], seq![b]);
    lemma_weight_one(a);
    lemma_weight_one(b);
}

proof fn lemma_weigh_five(p: Seq<Seq<char>>)
    requires
        p.len() == 5,
    ensures
        weight(p) == p[0].len() + p[1].len() + p[2].len() + p[3].len() + p[4].len() + 5,
{
    assert(p =~= seq![p[0], p[1]] + (seq![p[2], p[3]] + seq![p[4]]));
    lemma_weight_both(seq![p[0], p[1]], seq![p[2], p[3]] + seq![p[4]]);
    lemma_weight_both(seq![p[2], p[3]], seq![p[4]]);
    lemma_weigh_two(p[0], p[1]);
    lemma_weigh_two(p[2], p[3]);
    lemma_weight_one(p[4]);
}

proof fn lemma_weigh_header(h: Seq<Seq<char>>)
    requires
        h.len() == 6,
    ensures
        weight(h) == h[0].len() + h[1].len() + h[2].len() + h[3].len() + h[4].len() + h[5].len()
            + 6,
{
    let p = h.drop_last();
    lemma_weigh_five(p);
    assert(p[0] == h[0] && p[1] == h[1] && p[2] == h[2] && p[3] == h[3] && p[4] == h[4]);
    assert(h.last() == h[5]);
}

} // verus!
