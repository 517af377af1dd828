//! What special texts carry: data URIs, fenced code, citations, training data, saved states
//! and the instructions of modules.

use crate::adapter_types::{citation_of, citations_of, code_in, data_uri_of, uri_data};
use crate::agents::{lemma_all_of_type, lemma_of_type_both};
use crate::codex_lm::{codex_output, json_reply, last_line_reply};
use crate::error::DspyError;
use crate::finetune_types::{chat_error, completion_error, message_error};
use crate::json::JsonSpec;
use crate::module_trait::saved_state;
use crate::program_of_thought::{program_instruction, program_names, ProgramMode};
use crate::prompt::{
    asked_fields, given_fields, lemma_fields, lemma_parts_say, lemma_says_both, lemma_says_itself,
    lemma_says_within, lemma_ticked, says, ticked_name, told,
};
use crate::rlm::{action_instructions, extract_instructions};
use crate::signature::{
    distinct, names, of_type, opt_view, piece_field, shorthand_of, sig_of_text, updated, FieldSpec,
    FieldType, FieldUpdate, SigSpec,
};
use crate::react::bare_fields;
use crate::shorthand::{law_shorthand_is_read_back, short_name};
use crate::strmap::StrMap;
use crate::text::{
    find_first, has_text, join_of, lemma_find_from, lemma_find_is, occurs_at, trim_end_of, trim_of,
    trim_start_of,
};
use crate::two_step_adapter::{extraction_instructions, extractor_sig, first_results};
use crate::value::Value;
use vstd::prelude::*;

verus! {

// ---------------------------------------------------------------------------
// Data and code
// ---------------------------------------------------------------------------

/// The data in a data URI is read back, and the URI tells the media type before it.
pub proof fn law_data_is_read_back(mime: Seq<char>, data: Seq<char>)
    ensures
        !mime.contains(',') ==> uri_data(data_uri_of(mime, data)) == data,
        says(data_uri_of(mime, data), seq![mime, data]),
{
    let uri = data_uri_of(mime, data);
    reveal_strlit("data:");
    reveal_strlit(";base64,");
    reveal_strlit(",");
    let comma = ","@;
    let p = mime.len() as int + 12;
    if !mime.contains(',') {
        assert(uri.subrange(p, p + 1) =~= comma);
        assert forall|j: int| 0 <= j < p implies !occurs_at(uri, comma, j) by {
            if occurs_at(uri, comma, j) {
                assert(uri.subrange(j, j + 1)[0] == ',');
                assert(uri[j] == ',');
                if 5 <= j < 5 + mime.len() {
                    assert(mime[j - 5] == ',');
                    assert(mime.contains(','));
                }
            }
        }
        lemma_find_is(uri, comma, 0, p);
        assert(uri.subrange(p + 1, uri.len() as int) =~= data);
    }
    lemma_says_itself(mime);
    lemma_says_itself(data);
    lemma_says_within("data:"@, mime, seq![mime], ";base64,"@);
    lemma_says_both("data:"@ + mime + ";base64,"@, seq![mime], data, seq![data]);
    assert(seq![mime] + seq![data] =~= seq![mime, data]);
}

/// The code in a text is that of its first fenced block, whose first line may name a
/// language, without the white space around it; a text without fences is code as it is.
pub proof fn law_fenced_code_is_found(
    before: Seq<char>,
    language: Seq<char>,
    body: Seq<char>,
    rest: Seq<char>,
)
    requires
        !language.contains('\n'),
        ({
            let s = before + "```"@ + language + "\n"@ + body + "```"@ + rest;
            let start = before.len() + 3 + language.len() + 1;
            &&& forall|j: int| 0 <= j < before.len() ==> !#[trigger] occurs_at(s, "```"@, j)
            &&& forall|j: int|
                start <= j < start + body.len() ==> !#[trigger] occurs_at(s, "```"@, j)
        }),
    ensures
        code_in(before + "```"@ + language + "\n"@ + body + "```"@ + rest) == trim_of(body),
{
    let s = before + "```"@ + language + "\n"@ + body + "```"@ + rest;
    reveal_strlit("```");
    reveal_strlit("\n");
    let n = before.len() as int;
    let line = n + 3 + language.len();
    let close = line + 1 + body.len();
    assert(s.subrange(n, n + 3) =~= "```"@);
    lemma_find_is(s, "```"@, 0, n);
    assert(s.subrange(line, line + 1) =~= "\n"@);
    assert forall|j: int| n + 3 <= j < line implies !occurs_at(s, "\n"@, j) by {
        if occurs_at(s, "\n"@, j) {
            assert(s.subrange(j, j + 1)[0] == '\n');
            assert(language[j - n - 3] == '\n');
        }
    }
    lemma_find_is(s, "\n"@, n + 3, line);
    assert(s.subrange(close, close + 3) =~= "```"@);
    lemma_find_is(s, "```"@, line + 1, close);
    assert(s.subrange(line + 1, close) =~= body);
}

/// A text without fences is code as it is.
pub proof fn law_text_without_fences_is_code(s: Seq<char>)
    requires
        !has_text(s, "```"@),
    ensures
        code_in(s) == s,
{
}

/// Of items that are all citations every one is read, in order.
pub proof fn law_every_citation_is_read(items: Seq<JsonSpec>)
    requires
        forall|i: int| 0 <= i < items.len() ==> citation_of(#[trigger] items[i]) is Some,
    ensures
        citations_of(items).len() == items.len(),
        forall|i: int|
            0 <= i < items.len() ==> Some(citations_of(items)[i]) == citation_of(
                #[trigger] items[i],
            ),
    decreases items.len(),
{
    if items.len() > 0 {
        let d = items.drop_last();
        assert forall|i: int| 0 <= i < d.len() implies citation_of(#[trigger] d[i]) is Some by {
            assert(d[i] == items[i]);
        }
        law_every_citation_is_read(d);
        assert(citation_of(items[items.len() - 1]) is Some);
        assert forall|i: int| 0 <= i < items.len() implies Some(citations_of(items)[i])
            == citation_of(#[trigger] items[i]) by {
            if i < d.len() {
                assert(d[i] == items[i]);
            }
        }
    }
}

// ---------------------------------------------------------------------------
// Replies of programs
// ---------------------------------------------------------------------------

/// Of lines the last that has a reply counts, and a line that has none changes nothing.
pub proof fn law_last_line_with_a_reply_counts(v: Seq<Seq<char>>, line: Seq<char>)
    ensures
        trim_of(line).len() > 0 && json_reply(trim_of(line)) is Some ==> last_line_reply(
            v.push(line),
        ) == json_reply(trim_of(line)),
        trim_of(line).len() == 0 || json_reply(trim_of(line)) is None ==> last_line_reply(
            v.push(line),
        ) == last_line_reply(v),
        last_line_reply(Seq::empty()) is None,
{
    assert(v.push(line).drop_last() =~= v);
}

/// A program that wrote something has replied: with the reply in the whole of it, where that
/// is JSON with one, and else with that of its last line that has one or with all of it.
pub proof fn law_what_was_written_is_a_reply(stdout: Seq<char>)
    ensures
        codex_output(stdout) is Ok <==> trim_of(stdout).len() > 0,
        trim_of(stdout).len() > 0 && json_reply(trim_of(stdout)) is Some ==> (codex_output(
            stdout,
        ) matches Ok(t) && Some(t) == json_reply(trim_of(stdout))),
        trim_of(stdout).len() > 0 && json_reply(trim_of(stdout)) is None ==> (codex_output(
            stdout,
        ) matches Ok(t) && match last_line_reply(crate::text::lines_of(trim_of(stdout))) {
            Some(x) => t == x,
            None => t == trim_of(stdout),
        }),
{
}

// ---------------------------------------------------------------------------
// Training data and states
// ---------------------------------------------------------------------------

/// Nothing is wrong with a message exactly where it has a role that is known and a content
/// that is a text, and nothing else.
pub proof fn law_good_messages_pass(j: JsonSpec)
    ensures
        message_error(j, None) <==> (j matches JsonSpec::Object(m) && m.dom() == set![
            "content"@,
            "role"@,
        ] && (m["role"@] matches JsonSpec::Text(r) && (r == "assistant"@ || r == "system"@ || r
            == "user"@)) && m["content"@] is Text),
{
    reveal_strlit("assistant");
    reveal_strlit("system");
    reveal_strlit("user");
    assert("assistant"@.len() > 0 && "system"@.len() > 0 && "user"@.len() > 0);
    if let JsonSpec::Object(m) = j {
        if m.dom() == set!["content"@, "role"@] {
            assert(m.dom().contains("role"@));
        }
    }
}

/// Nothing is wrong with an item for completion exactly where it has a prompt and a
/// completion that are texts, and nothing else.
pub proof fn law_good_completions_pass(m: Map<Seq<char>, JsonSpec>)
    ensures
        completion_error(JsonSpec::Object(m), None) <==> m.dom() == set![
            "completion"@,
            "prompt"@,
        ] && m["prompt"@] is Text && m["completion"@] is Text,
{
}

/// Nothing is wrong with an item for chat exactly where it holds a list of messages, and
/// nothing else, and nothing is wrong with any of them.
pub proof fn law_good_chats_pass(m: Map<Seq<char>, JsonSpec>)
    ensures
        chat_error(JsonSpec::Object(m), None) <==> m.dom() == set!["messages"@] && (
        m["messages"@] matches JsonSpec::Array(items) && forall|i: int|
            0 <= i < items.len() ==> message_error(#[trigger] items[i], None)),
{
}

/// A state is saved with all that it has; only the metadata is new.
pub proof fn law_saved_state_keeps_everything(m: Map<Seq<char>, JsonSpec>)
    ensures
        saved_state(JsonSpec::Object(m)) matches JsonSpec::Object(n) && n.contains_key(
            "metadata"@,
        ) && forall|k: Seq<char>|
            k != "metadata"@ ==> (#[trigger] n.contains_key(k) == m.contains_key(k)) && n[k]
                == m[k],
{
}

/// An update changes what it gives of a field and keeps the rest, the name and the type in
/// any case.
pub proof fn law_update_changes_what_it_gives(f: FieldSpec, u: FieldUpdate)
    ensures
        updated(f, u).name == f.name,
        updated(f, u).field_type == f.field_type,
        u.description is Some ==> updated(f, u).description == opt_view(u.description),
        u.description is None ==> updated(f, u).description == f.description,
        u.prefix is Some ==> updated(f, u).prefix == opt_view(u.prefix),
        u.prefix is None ==> updated(f, u).prefix == f.prefix,
        u.format is Some ==> updated(f, u).format == opt_view(u.format),
        u.format is None ==> updated(f, u).format == f.format,
{
}

// ---------------------------------------------------------------------------
// Instructions
// ---------------------------------------------------------------------------

/// Of replies that were taken apart the first result of each that has one is kept, in
/// order.
pub proof fn law_first_results_are_kept(found: Seq<Vec<StrMap<Value>>>)
    ensures
        first_results(found) == found.filter(
            |v: Vec<StrMap<Value>>| v@.len() > 0,
        ).map_values(|v: Vec<StrMap<Value>>| v@[0]),
    decreases found.len(),
{
    reveal(Seq::filter);
    let p = |v: Vec<StrMap<Value>>| v@.len() > 0;
    let f = |v: Vec<StrMap<Value>>| v@[0];
    if found.len() > 0 {
        let d = found.drop_last();
        law_first_results_are_kept(d);
        assert(first_results(found) =~= found.filter(p).map_values(f));
    } else {
        assert(first_results(found) =~= found.filter(p).map_values(f));
    }
}

/// The instructions of the second step name every output that is to be taken from the text.
pub proof fn law_extraction_names_every_output(s: SigSpec)
    ensures
        says(
            extraction_instructions(names(s.outputs())),
            told(asked_fields(s, Seq::empty()), ticked_name()),
        ),
{
    lemma_fields(s, Seq::empty());
    lemma_ticked(s.outputs());
    let outs = told(s.outputs(), ticked_name());
    lemma_parts_say(outs, ", "@);
    lemma_says_within(
        "The input is a text that should contain all the necessary information to produce the fields "@,
        join_of(outs, ", "@),
        outs,
        ". Your job is to extract the fields from the text verbatim. Extract precisely the appropriate value (content) for each field."@,
    );
}

proof fn lemma_text_is_short()
    ensures
        short_name("text"@),
        !has_text("text"@, "->"@),
{
    reveal_strlit("text");
    let text = "text"@;
    assert(text[0] == 't' && text.last() == 't');
    assert(trim_start_of(text) == text);
    assert(trim_end_of(text) == text);
    lemma_text_has_no_arrow();
}

proof fn lemma_text_has_no_arrow()
    ensures
        !has_text("text"@, "->"@),
{
    reveal_strlit("text");
    reveal_strlit("->");
    let text = "text"@;
    lemma_find_from(text, "->"@, 0);
    if let Some(q) = find_first(text, "->"@) {
        assert(text.subrange(q, q + 2)[0] == '-');
        assert(text[q] == '-');
    }
}

/// A signature from a text to outputs of some names.
spec fn from_text(outs: Seq<Seq<char>>) -> SigSpec {
    SigSpec {
        instructions: Seq::empty(),
        fields: seq![FieldSpec::bare("text"@, FieldType::Input)] + bare_fields(
            outs,
            FieldType::Output,
        ),
    }
}

proof fn lemma_from_text(outs: Seq<Seq<char>>)
    ensures
        from_text(outs).inputs() == seq![FieldSpec::bare("text"@, FieldType::Input)],
        from_text(outs).outputs() == bare_fields(outs, FieldType::Output),
        names(from_text(outs).inputs()) == seq!["text"@],
        names(from_text(outs).outputs()) == outs,
        outs.no_duplicates() && !outs.contains("text"@) ==> distinct(from_text(outs).fields),
{
    let a = seq![FieldSpec::bare("text"@, FieldType::Input)];
    let b = bare_fields(outs, FieldType::Output);
    lemma_of_type_both(a, b, FieldType::Input);
    lemma_of_type_both(a, b, FieldType::Output);
    lemma_all_of_type(a, FieldType::Input);
    lemma_all_of_type(b, FieldType::Input);
    lemma_all_of_type(a, FieldType::Output);
    lemma_all_of_type(b, FieldType::Output);
    assert(of_type(a, FieldType::Input) + of_type(b, FieldType::Input) =~= a);
    assert(of_type(a, FieldType::Output) + of_type(b, FieldType::Output) =~= b);
    assert(names(a) =~= seq!["text"@]);
    assert(names(b) =~= outs);
    if outs.no_duplicates() && !outs.contains("text"@) {
        let all = names(a + b);
        assert(all =~= seq!["text"@] + outs);
        assert forall|i: int, j: int|
            0 <= i < all.len() && 0 <= j < all.len() && i != j implies all[i] != all[j] by {
            if i > 0 {
                assert(outs.contains(outs[i - 1]));
            }
            if j > 0 {
                assert(outs.contains(outs[j - 1]));
            }
        }
    }
}

/// The second step is given the text and asked for every output of the task.
pub proof fn law_extraction_asks_for_every_output(s: SigSpec)
    requires
        distinct(s.outputs()),
        s.outputs().len() > 0,
        !names(s.outputs()).contains("text"@),
        forall|i: int| 0 <= i < s.outputs().len() ==> short_name(#[trigger] s.outputs()[i].name),
    ensures
        extractor_sig(s) matches Ok(x) && names(x.inputs()) == seq!["text"@] && names(x.outputs())
            == names(s.outputs()) && x.instructions == extraction_instructions(
            names(s.outputs()),
        ),
{
    let outs = names(s.outputs());
    let like = from_text(outs);
    lemma_from_text(outs);
    lemma_text_is_short();
    assert forall|k: int| 0 <= k < like.outputs().len() implies short_name(
        #[trigger] like.outputs()[k].name,
    ) by {
        assert(like.outputs()[k].name == s.outputs()[k].name);
    }
    law_shorthand_is_read_back(like);
    lemma_text_shorthand(outs);
    assert(sig_of_text("text -> "@ + join_of(outs, ", "@)) == Ok::<SigSpec, Seq<char>>(like)) by {
        assert(bare_fields(seq!["text"@], FieldType::Input) =~= like.inputs());
    }
    let x = extractor_sig(s)->Ok_0;
    assert(x.fields == like.fields);
    assert(x.inputs() == like.inputs() && x.outputs() == like.outputs());
}

proof fn lemma_text_shorthand(outs: Seq<Seq<char>>)
    ensures
        shorthand_of(from_text(outs)) == "text -> "@ + join_of(outs, ", "@),
{
    lemma_from_text(outs);
    reveal_strlit("text");
    reveal_strlit(" -> ");
    reveal_strlit("text -> ");
    assert(join_of(seq!["text"@], ", "@) == "text"@);
    assert("text"@ + " -> "@ =~= "text -> "@);
}

/// The instructions of a program of thought name every input of the task. Those for the
/// first code name every output of the task, and so do those for the answer.
pub proof fn law_program_is_told_the_fields(s: SigSpec, mode: ProgramMode)
    ensures
        says(program_instruction(s, mode), told(given_fields(s), ticked_name())),
        mode != ProgramMode::Regenerate ==> says(
            program_instruction(s, mode),
            told(asked_fields(s, Seq::empty()), ticked_name()),
        ),
{
    lemma_fields(s, Seq::empty());
    lemma_ticked(s.inputs());
    lemma_ticked(s.outputs());
    let ins = told(s.inputs(), ticked_name());
    let outs = told(s.outputs(), ticked_name());
    let all_ins = crate::adapter::ticked(program_names(s, mode).0);
    let i = join_of(all_ins, ", "@);
    lemma_parts_say(all_ins, ", "@);
    lemma_parts_say(outs, ", "@);
    let o = join_of(outs, ", "@);
    let text = program_instruction(s, mode);
    let extra = program_names(s, mode).0.skip(names(s.inputs()).len() as int);
    assert(program_names(s, mode).0 =~= names(s.inputs()) + extra);
    assert(all_ins =~= ins + crate::adapter::ticked(extra));
    lemma_says_less(i, ins, crate::adapter::ticked(extra));
    match mode {
        ProgramMode::Generate => {
            let code = crate::adapter::ticked_list(program_names(s, mode).1);
            let rest = " and you will respond with "@ + code
                + ".\nGenerating executable Python code that programmatically computes the correct "@
                + code
                + ".\nAfter you're done with the computation and think you have the final output, make sure to submit your output by calling the preloaded function `SUBMIT()`.\nYou must structure your output in a dict, like {\"field_a\": value_a, ...}, with the correct value mapping for the field(s): "@;
            lemma_says_within("You will be given "@, i, ins, rest + o + "."@);
            assert("You will be given "@ + i + (rest + o + "."@) =~= text);
            lemma_says_within("You will be given "@ + i + rest, o, outs, "."@);
            assert("You will be given "@ + i + rest + o + "."@ =~= text);
        },
        ProgramMode::Regenerate => {
            lemma_says_within(
                "You are given "@,
                i,
                ins,
                " due to an error in previous code.\nYour task is to correct the error and provide the new `generated_code`."@,
            );
        },
        ProgramMode::Answer => {
            lemma_says_within("Given the final code "@, i, ins, ", provide the final "@ + o + "."@);
            assert("Given the final code "@ + i + (", provide the final "@ + o + "."@) =~= text);
            lemma_says_within(
                "Given the final code "@ + i + ", provide the final "@,
                o,
                outs,
                "."@,
            );
            assert("Given the final code "@ + i + ", provide the final "@ + o + "."@ =~= text);
        },
    }
}

/// What says more says less.
proof fn lemma_says_less(t: Seq<char>, x: Seq<Seq<char>>, y: Seq<Seq<char>>)
    requires
        says(t, x + y),
    ensures
        says(t, x),
{
    let w = x + y;
    let p = choose|p: Seq<int>| #[trigger] crate::prompt::in_a_row(t, w, p);
    let q = p.take(x.len() as int);
    assert forall|i: int| 0 <= i < x.len() implies #[trigger] occurs_at(t, x[i], q[i]) by {
        assert(occurs_at(t, w[i], p[i]));
    }
    assert forall|i: int, j: int|
        #![trigger q[i], q[j]]
        0 <= i < j < x.len() implies q[i] + x[i].len() <= q[j] by {
        assert(p[i] + w[i].len() <= p[j]);
    }
    assert(crate::prompt::in_a_row(t, x, q));
}

/// The instructions of a session begin with those of the task, and those for its outputs
/// tell them as the objective.
pub proof fn law_session_is_told_the_task(s: SigSpec, max_llm_calls: nat)
    requires
        s.instructions.len() > 0,
    ensures
        occurs_at(action_instructions(s, max_llm_calls), s.instructions, 0),
        says(extract_instructions(s), seq![s.instructions]),
{
    let a = action_instructions(s, max_llm_calls);
    assert(a.subrange(0, s.instructions.len() as int) =~= s.instructions);
    let begin = "The trajectory was generated with the following objective: \n"@;
    let end =
        "Based on the REPL trajectory, extract the final outputs now.\n\nReview your trajectory to see what information you gathered and what values you computed, then provide the final outputs."@;
    lemma_says_itself(s.instructions);
    lemma_says_within(begin, s.instructions, seq![s.instructions], "\n\n"@ + "\n"@ + end);
    assert(begin + s.instructions + ("\n\n"@ + "\n"@ + end) =~= extract_instructions(s));
}

// ---------------------------------------------------------------------------
// Shorthand and errors
// ---------------------------------------------------------------------------

/// In shorthand a field is its name, or its name and its description with a colon between
/// them, both without the white space around them.
pub proof fn law_shorthand_tells_name_and_description(
    name: Seq<char>,
    desc: Seq<char>,
    t: FieldType,
)
    requires
        !name.contains(':'),
    ensures
        piece_field(name, t).name == trim_of(name),
        piece_field(name, t).description is None,
        piece_field(name, t).field_type == t,
        piece_field(name + ":"@ + desc, t).name == trim_of(name),
        piece_field(name + ":"@ + desc, t).field_type == t,
        trim_of(desc).len() > 0 ==> piece_field(name + ":"@ + desc, t).description == Some(
            trim_of(desc),
        ),
        trim_of(desc).len() == 0 ==> piece_field(name + ":"@ + desc, t).description is None,
{
    reveal_strlit(":");
    let colon = ":"@;
    let s = name + colon + desc;
    let n = name.len() as int;
    lemma_find_from(name, colon, 0);
    if let Some(p) = find_first(name, colon) {
        assert(name.subrange(p, p + 1)[0] == ':');
        assert(name[p] == ':');
    }
    assert(s.subrange(n, n + 1) =~= colon);
    assert forall|j: int| 0 <= j < n implies !occurs_at(s, colon, j) by {
        if occurs_at(s, colon, j) {
            assert(s.subrange(j, j + 1)[0] == ':');
            assert(name[j] == ':');
        }
    }
    lemma_find_is(s, colon, 0, n);
    assert(s.subrange(0, n) =~= name);
    assert(s.subrange(n + 1, s.len() as int) =~= desc);
}

/// What an error says ends with what happened.
pub open spec fn detail_of(e: DspyError) -> Seq<char> {
    match e {
        DspyError::MissingField(s) => s@,
        DspyError::InvalidSignature(s) => s@,
        DspyError::LMError(s) => s@,
        DspyError::ParseError(s) => s@,
        DspyError::SerializationError(s) => s@,
        DspyError::HttpError(s) => s@,
        DspyError::EvaluationError(s) => s@,
        DspyError::OptimizationError(s) => s@,
        DspyError::ModuleError(s) => s@,
        DspyError::Other(s) => s@,
    }
}

/// The message of an error ends with what happened.
pub proof fn law_message_ends_with_the_detail(e: DspyError)
    ensures
        e.message_of().len() >= detail_of(e).len(),
        e.message_of().skip(e.message_of().len() - detail_of(e).len()) == detail_of(e),
{
    let m = e.message_of();
    assert(m.skip(m.len() - detail_of(e).len()) =~= detail_of(e));
}

} // verus!
