//! What calls and runs leave behind: the history of calls, the usage of replies, the code
//! and the outputs of agents.

use crate::aggregation::text_map;
use crate::cache::as_hit;
use crate::code_act::{parsed_code, says_finished};
use crate::example::ExampleSpec;
use crate::generated_code::{
    block_at, code_block_of, first_block, gap_after_name, is_gap, line_end, ran, raw_code_of,
};
use crate::interpreter::{CodeInterpreterError, ExecutionResult};
use crate::json::{empty_object, parsed_json, pretty_json, printed_json, JsonSpec};
use crate::lm::{
    history_after, response_json, tracked_usage, usage_json, CallContext, HistorySpec, ResponseSpec,
    Usage,
};
use crate::message::MessageSpec;
use crate::multi_chain_comparison::{attempt_field, with_attempts};
use crate::prediction::PredictionSpec;
use crate::program_of_thought::{program_of, with_result};
use crate::prompt::{lemma_says_both, lemma_says_itself, lemma_says_within, says};
use crate::react::{
    failure_text, named_args, named_tool, observed_at_once, steps_allowed, trajectory_text,
    with_trajectory, without_field, ReactRun,
};
use crate::repl_types::{can_cut, preview_of, preview_text, EntrySpec};
use crate::rlm::{is_extracted, is_final, run_text, trajectory_json, without_fences};
use crate::signature::{lemma_name_index, names, FieldSpec, SigSpec};
use crate::text::{
    byte_len_of, has_text, lemma_clean_cut, lemma_find_from, occurs_at, replace_of, trim_of,
};
use crate::tool::{tool_index, unknown_arg, Tool, ToolArg};
use crate::unicode::ascii_lowered;
use crate::value::{names_of, reads_as, ValueSpec};
use vstd::prelude::*;

verus! {

// ---------------------------------------------------------------------------
// Calls of models
// ---------------------------------------------------------------------------

/// A call goes into the history as it was: its messages, its replies, its model, whether
/// the cache answered, and when. The calls before it stay, the last of them, and where the
/// history is disabled nothing changes.
pub proof fn law_call_goes_into_the_history(
    c: CallContext,
    model: Seq<char>,
    messages: Seq<MessageSpec>,
    replies: Seq<ResponseSpec>,
    cache_hit: bool,
    timestamp: Seq<char>,
)
    ensures
        ({
            let after = history_after(c, model, messages, replies, cache_hit, timestamp);
            let before = c.history@;
            &&& c.disable_history ==> after == before
            &&& !c.disable_history && c.history.bound() > 0 ==> {
                &&& after.len() > 0
                &&& after.last() == (HistorySpec {
                    messages,
                    response: replies,
                    model,
                    cache_hit,
                    timestamp,
                })
                &&& after.drop_last().len() <= before.len()
                &&& after.drop_last() == before.skip(before.len() - after.drop_last().len())
                &&& before.len() < c.history.bound() ==> after.drop_last() == before
            }
        }),
{
    let after = history_after(c, model, messages, replies, cache_hit, timestamp);
    let before = c.history@;
    if !c.disable_history && c.history.bound() > 0 {
        let n = after.drop_last().len();
        assert(after.drop_last() =~= before.skip(before.len() - n));
        if before.len() < c.history.bound() {
            assert(before.skip(0) =~= before);
        }
    }
}

/// The usage that replies report, in order.
pub open spec fn reported(replies: Seq<ResponseSpec>) -> Seq<Usage> {
    replies.filter(|r: ResponseSpec| r.usage is Some).map_values(
        |r: ResponseSpec| r.usage->Some_0,
    )
}

/// Every usage that a reply reports is counted for the model of the call, in order, with
/// its tokens, and none for another.
pub proof fn law_every_usage_is_counted(
    u: Map<Seq<char>, Seq<JsonSpec>>,
    model: Seq<char>,
    replies: Seq<ResponseSpec>,
)
    ensures
        ({
            let after = tracked_usage(u, model, replies);
            let old_entries = if u.contains_key(model) {
                u[model]
            } else {
                Seq::empty()
            };
            &&& reported(replies).len() > 0 ==> after.contains_key(model) && after[model]
                == old_entries + reported(replies).map_values(|x: Usage| usage_json(x))
            &&& reported(replies).len() == 0 ==> after == u
            &&& forall|k: Seq<char>|
                k != model ==> (#[trigger] after.contains_key(k) == u.contains_key(k)) && (
                u.contains_key(k) ==> after[k] == u[k])
        }),
    decreases replies.len(),
{
    reveal(Seq::filter);
    if replies.len() > 0 {
        let d = replies.drop_last();
        law_every_usage_is_counted(u, model, d);
        let front = tracked_usage(u, model, d);
        let f = |x: Usage| usage_json(x);
        if let Some(x) = replies.last().usage {
            law_usage_is_told(x);
            assert(reported(replies) =~= reported(d).push(x));
            assert(reported(replies).map_values(f) =~= reported(d).map_values(f).push(
                usage_json(x),
            ));
            let after = tracked_usage(u, model, replies);
            let old_entries = if u.contains_key(model) {
                u[model]
            } else {
                Seq::empty()
            };
            assert(usage_json(x) != JsonSpec::Object(empty_object()));
            assert(after[model] =~= old_entries + reported(replies).map_values(f));
        } else {
            assert(reported(replies) =~= reported(d));
        }
    } else {
        assert(reported(replies) =~= Seq::<Usage>::empty());
    }
}

/// A usage in JSON tells how many tokens the prompt and the completion took.
pub proof fn law_usage_is_told(u: Usage)
    ensures
        usage_json(u) matches JsonSpec::Object(m) && m.contains_key("prompt_tokens"@)
            && m["prompt_tokens"@] == JsonSpec::Int(u.prompt_tokens as int) && m.contains_key(
            "completion_tokens"@,
        ) && m["completion_tokens"@] == JsonSpec::Int(u.completion_tokens as int),
        usage_json(u) != JsonSpec::Object(empty_object()),
{
    reveal_strlit("prompt_tokens");
    reveal_strlit("completion_tokens");
    assert("prompt_tokens"@.len() == 13 && "completion_tokens"@.len() == 17);
    let m = usage_json(u)->Object_0;
    assert(m.contains_key("prompt_tokens"@));
    assert(!empty_object().contains_key("prompt_tokens"@));
}

/// A reply in JSON tells its text and its usage: replies that differ differ in JSON.
pub proof fn law_replies_are_told_apart(a: ResponseSpec, b: ResponseSpec)
    requires
        response_json(a) == response_json(b),
    ensures
        a.text == b.text,
        a.usage is Some == b.usage is Some,
        a.usage matches Some(x) ==> x.prompt_tokens == b.usage->Some_0.prompt_tokens
            && x.completion_tokens == b.usage->Some_0.completion_tokens,
{
    reveal_strlit("text");
    reveal_strlit("usage");
    assert("text"@.len() == 4 && "usage"@.len() == 5);
    let p = response_json(a)->Object_0;
    let q = response_json(b)->Object_0;
    assert(p["text"@] == q["text"@]);
    assert(p["usage"@] == q["usage"@]);
    if let Some(x) = a.usage {
        law_usage_is_told(x);
    }
    if let Some(x) = b.usage {
        law_usage_is_told(x);
    }
}

/// What comes from the cache is what was stored. An object says that it came from there, and
/// its usage, which was not paid again, is gone; everything else in it stays.
pub proof fn law_hits_are_what_was_stored(v: JsonSpec)
    ensures
        !(v is Object) ==> as_hit(v) == v,
        v matches JsonSpec::Object(m) ==> (as_hit(v) matches JsonSpec::Object(n) && n.contains_key(
            "cache_hit"@,
        ) && n["cache_hit"@] == JsonSpec::Bool(true) && !n.contains_key("usage"@) && forall|
            k: Seq<char>,
        |
            k != "cache_hit"@ && k != "usage"@ ==> (#[trigger] n.contains_key(k)
                == m.contains_key(k)) && n[k] == m[k]),
{
    reveal_strlit("cache_hit");
    reveal_strlit("usage");
    assert("cache_hit"@.len() == 9 && "usage"@.len() == 5);
}

// ---------------------------------------------------------------------------
// Agents that call tools
// ---------------------------------------------------------------------------

/// A step calls the tool that it names, with the object that its arguments are; without a
/// name it ends the task, and what is no object counts as no arguments.
pub proof fn law_step_names_its_tool(p: ExampleSpec)
    ensures
        p.store.contains_key("next_tool_name"@) ==> (p.store["next_tool_name"@] matches
            ValueSpec::Text(t) ==> named_tool(p) == t),
        !p.store.contains_key("next_tool_name"@) ==> named_tool(p) == "finish"@,
        p.store.contains_key("next_tool_args"@) ==> (p.store["next_tool_args"@] matches
            ValueSpec::Text(t) ==> (match parsed_json(t) {
            Ok(JsonSpec::Object(m)) => named_args(p) == m,
            _ => named_args(p) == Map::<Seq<char>, JsonSpec>::empty(),
        })),
{
}

/// What is observed of a tool that is not there names it, and what is observed of one that
/// fails names it and says why.
pub proof fn law_failures_name_the_tool(
    tools: Map<Seq<char>, Tool>,
    p: ExampleSpec,
    o: Seq<char>,
    tool: Seq<char>,
    e: Seq<char>,
)
    ensures
        observed_at_once(tools, p, o) && !tools.contains_key(named_tool(p)) ==> says(
            o,
            seq![named_tool(p)],
        ),
        says(failure_text(tool, e), seq![tool, e]),
{
    if observed_at_once(tools, p, o) && !tools.contains_key(named_tool(p)) {
        lemma_says_itself(named_tool(p));
        lemma_says_within("Tool '"@, named_tool(p), seq![named_tool(p)], "' not found"@);
    }
    lemma_says_itself(tool);
    lemma_says_itself(e);
    lemma_says_within("Execution error in "@, tool, seq![tool], ": "@);
    lemma_says_both("Execution error in "@ + tool + ": "@, seq![tool], e, seq![e]);
    assert(seq![tool] + seq![e] =~= seq![tool, e]);
}

/// A run takes as many steps as its inputs allow by number, and else as many as the agent
/// has by default.
pub proof fn law_inputs_bound_the_steps(args: ExampleSpec, default: usize)
    ensures
        !args.store.contains_key("max_iters"@) ==> steps_allowed(args, default) == default,
        args.store.contains_key("max_iters"@) ==> (args.store["max_iters"@] matches
            ValueSpec::Integer(n) ==> (0 <= n <= usize::MAX ==> steps_allowed(args, default)
            == n)),
{
}

// ---------------------------------------------------------------------------
// Code
// ---------------------------------------------------------------------------

proof fn lemma_first_block_none(s: Seq<char>, p: int)
    requires
        !has_text(s, "```"@),
        0 <= p,
    ensures
        first_block(s, p) is None,
    decreases s.len() - p,
{
    if p < s.len() {
        lemma_find_from(s, "```"@, 0);
        lemma_first_block_none(s, p + 1);
    }
}

/// Code that stands in no block is taken as it is, but for line breaks that were written as
/// escapes.
pub proof fn law_plain_code_is_taken(raw: Seq<char>)
    requires
        !has_text(raw, "```"@),
    ensures
        code_block_of(raw) == replace_of(raw, "\\n"@, "\n"@),
        !has_text(raw, "\\n"@) ==> code_block_of(raw) == raw,
{
    lemma_first_block_none(raw, 0);
    lemma_find_from(raw, "\\n"@, 0);
}

/// Of a reply the part before a rule of dashes and before two blank lines may hold code; a
/// reply with neither may hold it anywhere.
pub proof fn law_code_comes_before_the_rule(full: Seq<char>)
    requires
        !has_text(full, "---"@),
        !has_text(full, "\n\n\n"@),
    ensures
        raw_code_of(full) == full,
{
}

/// Code is what the reply holds, or there is none exactly where that is blank. Code that is
/// to show its result begins with what the reply holds.
pub proof fn law_code_is_what_was_written(p: ExampleSpec)
    requires
        p.store.contains_key("generated_code"@),
        p.store["generated_code"@] is Text,
    ensures
        ({
            let block = code_block_of(raw_code_of(p.store["generated_code"@]->Text_0));
            &&& parsed_code(p) is Ok <==> trim_of(block).len() > 0
            &&& parsed_code(p) matches Ok(c) ==> c == block
            &&& program_of(p) matches Ok(c) ==> c.len() >= block.len() && c.take(
                block.len() as int,
            ) == block
        }),
{
    let block = code_block_of(raw_code_of(p.store["generated_code"@]->Text_0));
    let c = with_result(block);
    assert(c.take(block.len() as int) =~= block);
}

/// What running code gave is kept: the final value as a text or in JSON, or what was
/// printed, or the message of the error.
pub proof fn law_results_are_kept(
    r: std::result::Result<ExecutionResult, CodeInterpreterError>,
)
    ensures
        r matches Ok(ExecutionResult::Output(Some(t))) ==> ran(r) == std::result::Result::<
            Seq<char>,
            Seq<char>,
        >::Ok(t@) && run_text(r) == Some(t@),
        r matches Ok(ExecutionResult::Final(f)) ==> ran(r) == std::result::Result::<
            Seq<char>,
            Seq<char>,
        >::Ok(
            match f.output@ {
                JsonSpec::Text(t) => t,
                _ => printed_json(f.output@),
            },
        ),
        r matches Err(e) ==> ran(r) == std::result::Result::<Seq<char>, Seq<char>>::Err(e.message@)
            && (run_text(r) matches Some(t) && says(t, seq![e.message@])),
{
    if let Err(e) = r {
        lemma_says_itself(e.message@);
        lemma_says_within("[Error] "@, e.message@, seq![e.message@], Seq::empty());
        assert("[Error] "@ + e.message@ + Seq::<char>::empty() =~= "[Error] "@ + e.message@);
    }
}

/// An agent is done where it says so: by a truth value, or by `true` or `yes` in whatever
/// case.
pub proof fn law_agents_say_when_they_are_done(p: ExampleSpec)
    ensures
        !p.store.contains_key("finished"@) ==> !says_finished(p),
        p.store.contains_key("finished"@) ==> match p.store["finished"@] {
            ValueSpec::Bool(b) => says_finished(p) == b,
            ValueSpec::Text(t) => says_finished(p) == (ascii_lowered(t) == "true"@ || ascii_lowered(
                t,
            ) == "yes"@),
            _ => !says_finished(p),
        },
{
    reveal_strlit("true");
    reveal_strlit("yes");
    assert(ascii_lowered("true"@) =~= "true"@);
    assert(ascii_lowered("yes"@) =~= "yes"@);
}

/// Code that is not fenced is taken as it is, without the white space around it.
pub proof fn law_unfenced_code_is_taken(code: Seq<char>)
    requires
        !occurs_at(trim_of(code), "```"@, 0),
    ensures
        without_fences(code) == trim_of(code),
{
}

// ---------------------------------------------------------------------------
// Sessions
// ---------------------------------------------------------------------------

/// An object that was read has the members of what it was read from.
pub open spec fn member_reads(v: ValueSpec, key: Seq<char>, t: Seq<char>) -> bool {
    v matches ValueSpec::Object(e) && exists|i: int|
        0 <= i < e.len() && (#[trigger] e[i]) == (key, ValueSpec::Text(t))
}

proof fn lemma_member_reads(v: ValueSpec, j: JsonSpec, key: Seq<char>, t: Seq<char>)
    requires
        reads_as(v, j),
        j is Object,
        j->Object_0.contains_key(key),
        j->Object_0[key] == JsonSpec::Text(t),
    ensures
        member_reads(v, key, t),
{
    match (v, j) {
        (ValueSpec::Object(e), JsonSpec::Object(m)) => {
            assert(m.contains_key(key));
            assert(names_of(e).contains(key));
            let i = choose|i: int| 0 <= i < names_of(e).len() && names_of(e)[i] == key;
            assert(e[i].0 == key);
            assert(reads_as(e[i].1, m[e[i].0]));
            assert(e[i] == (key, ValueSpec::Text(t)));
        },
        _ => {},
    }
}

proof fn lemma_steps_read(v: ValueSpec, h: Seq<EntrySpec>)
    requires
        reads_as(v, trajectory_json(h)),
    ensures
        steps_read(v, h),
{
    let items = h.map_values(|e: EntrySpec| crate::repl_types::entry_json(e));
    let l = v->List_0;
    assert(trajectory_json(h) == JsonSpec::Array(items));
    assert(l.len() == h.len());
    reveal_strlit("reasoning");
    reveal_strlit("code");
    reveal_strlit("output");
    assert("reasoning"@.len() == 9 && "code"@.len() == 4 && "output"@.len() == 6);
    assert forall|i: int| 0 <= i < h.len() implies member_reads(
        #[trigger] l[i],
        "reasoning"@,
        h[i].reasoning,
    ) && member_reads(l[i], "code"@, h[i].code) && member_reads(l[i], "output"@, h[i].output) by {
        assert(reads_as(l[i], items[i]));
        let m = items[i];
        lemma_member_reads(l[i], m, "reasoning"@, h[i].reasoning);
        lemma_member_reads(l[i], m, "code"@, h[i].code);
        lemma_member_reads(l[i], m, "output"@, h[i].output);
    }
}

/// A value is the list of the steps, in order, each with its reasoning, its code and its
/// output.
pub open spec fn steps_read(v: ValueSpec, h: Seq<EntrySpec>) -> bool {
    v matches ValueSpec::List(l) && l.len() == h.len() && forall|i: int|
        0 <= i < h.len() ==> member_reads(#[trigger] l[i], "reasoning"@, h[i].reasoning)
            && member_reads(l[i], "code"@, h[i].code) && member_reads(
            l[i],
            "output"@,
            h[i].output,
        )
}

/// The prediction of a session that handed in its outputs has every one of them, read from
/// what was handed in, all its steps and the last reasoning, and nothing else.
pub proof fn law_final_outputs_are_predicted(
    p: PredictionSpec,
    m: Map<Seq<char>, JsonSpec>,
    h: Seq<EntrySpec>,
    reasoning: Seq<char>,
)
    requires
        is_final(p, m, h, reasoning),
        !m.contains_key("trajectory"@),
        !m.contains_key("final_reasoning"@),
    ensures
        forall|k: Seq<char>| #[trigger]
            m.contains_key(k) ==> p.example.store.contains_key(k) && reads_as(
                p.example.store[k],
                m[k],
            ),
        forall|k: Seq<char>| #[trigger]
            p.example.store.contains_key(k) ==> m.contains_key(k) || k == "trajectory"@ || k
                == "final_reasoning"@,
        p.example.store["final_reasoning"@] == ValueSpec::Text(reasoning),
        steps_read(p.example.store["trajectory"@], h),
{
    lemma_steps_read(p.example.store["trajectory"@], h);
    assert forall|k: Seq<char>| #[trigger] p.example.store.contains_key(k) implies m.contains_key(
        k,
    ) || k == "trajectory"@ || k == "final_reasoning"@ by {
        assert(p.example.store.dom().contains(k));
    }
    assert forall|k: Seq<char>| #[trigger] m.contains_key(k) implies p.example.store.contains_key(
        k,
    ) && reads_as(p.example.store[k], m[k]) by {
        assert(p.example.store.dom().contains(k));
    }
}

/// The prediction of a session whose outputs were taken from its steps has every wanted one
/// that was found, as it was found, and all its steps.
pub proof fn law_extracted_outputs_are_predicted(
    p: PredictionSpec,
    found: ExampleSpec,
    wanted: Seq<Seq<char>>,
    h: Seq<EntrySpec>,
)
    requires
        is_extracted(p, found, wanted, h),
    ensures
        forall|k: Seq<char>| #[trigger]
            wanted.contains(k) && found.store.contains_key(k) && k != "trajectory"@ && k
                != "final_reasoning"@ ==> p.example.store.contains_key(k) && p.example.store[k]
                == found.store[k],
        steps_read(p.example.store["trajectory"@], h),
{
    lemma_steps_read(p.example.store["trajectory"@], h);
    assert forall|k: Seq<char>| #[trigger]
        wanted.contains(k) && found.store.contains_key(k) && k != "trajectory"@ && k
            != "final_reasoning"@ implies p.example.store.contains_key(k) && p.example.store[k]
        == found.store[k] by {
        assert(wanted.to_set().contains(k));
        assert(p.example.store.dom().contains(k));
    }
}

// ---------------------------------------------------------------------------
// Attempts
// ---------------------------------------------------------------------------

/// A comparison of attempts has a field for every attempt and all the fields of the task.
pub proof fn law_every_attempt_has_a_field(s: SigSpec, m: nat)
    ensures
        forall|i: int|
            0 <= i < s.fields.len() ==> names(with_attempts(s, m).fields).contains(
                (#[trigger] s.fields[i]).name,
            ),
        forall|n: nat|
            1 <= n <= m ==> names(with_attempts(s, m).fields).contains(
                "reasoning_attempt_"@ + #[trigger] crate::text::dec_of(n),
            ),
        with_attempts(s, m).instructions == s.instructions,
    decreases m,
{
    if m == 0 {
        assert forall|i: int| 0 <= i < s.fields.len() implies names(s.fields).contains(
            (#[trigger] s.fields[i]).name,
        ) by {
            assert(names(s.fields)[i] == s.fields[i].name);
        }
    } else {
        let k = (m - 1) as nat;
        law_every_attempt_has_a_field(s, k);
        let before = with_attempts(s, k);
        let f = attempt_field(m);
        let after = before.append(f);
        lemma_append_keeps(before, f);
        assert forall|i: int| 0 <= i < s.fields.len() implies names(after.fields).contains(
            (#[trigger] s.fields[i]).name,
        ) by {
            assert(names(before.fields).contains(s.fields[i].name));
        }
        assert forall|n: nat| 1 <= n <= m implies names(after.fields).contains(
            "reasoning_attempt_"@ + #[trigger] crate::text::dec_of(n),
        ) by {
            if n < m {
                assert(names(before.fields).contains(
                    "reasoning_attempt_"@ + crate::text::dec_of(n),
                ));
            }
        }
    }
}

proof fn lemma_append_keeps(s: SigSpec, f: FieldSpec)
    ensures
        names(s.append(f).fields).contains(f.name),
        forall|k: Seq<char>| #[trigger]
            names(s.fields).contains(k) ==> names(s.append(f).fields).contains(k),
        s.append(f).instructions == s.instructions,
{
    let all = s.append(f).fields;
    lemma_name_index(s.fields, f.name);
    match crate::signature::name_index(s.fields, f.name) {
        Some(i) => {
            assert(names(all)[i] == f.name);
        },
        None => {
            assert(names(all)[s.fields.len() as int] == f.name);
        },
    }
    assert forall|k: Seq<char>| #[trigger] names(s.fields).contains(k) implies names(all).contains(
        k,
    ) by {
        let i = choose|i: int| 0 <= i < names(s.fields).len() && names(s.fields)[i] == k;
        assert(names(all)[i] == k);
    }
}

// ---------------------------------------------------------------------------
// Inputs of steps
// ---------------------------------------------------------------------------

/// A step is given the inputs of the run as they are, and the trajectory as it is shown.
pub proof fn law_step_is_given_the_trajectory(run: ReactRun)
    ensures
        ({
            let r = with_trajectory(run).store;
            let e = run.input_args@.store;
            &&& r.contains_key("trajectory"@) && r["trajectory"@] == ValueSpec::Text(
                trajectory_text(text_map(run.trajectory), run.trajectory.keys()),
            )
            &&& forall|k: Seq<char>|
                k != "trajectory"@ ==> (#[trigger] r.contains_key(k) == e.contains_key(k)) && r[k]
                    == e[k]
        }),
{
}

/// Taking a field from the inputs takes that field and no other.
pub proof fn law_only_the_field_is_taken(e: ExampleSpec, key: Seq<char>)
    ensures
        !without_field(e, key).store.contains_key(key),
        forall|k: Seq<char>|
            k != key ==> (#[trigger] without_field(e, key).store.contains_key(k)
                == e.store.contains_key(k)) && without_field(e, key).store[k] == e.store[k],
{
}

/// A preview is the whole text where that takes no more bytes than are allowed, and else as
/// many of its first bytes as are allowed, with dots. A text is previewed as it is, nothing
/// as nothing, lists and objects as they are printed over several lines, and anything else
/// as it is printed.
pub proof fn law_previews_begin_the_text(j: JsonSpec, s: Seq<char>, n: nat)
    requires
        can_cut(s, n),
    ensures
        byte_len_of(s) <= n ==> preview_of(s, n) == s,
        byte_len_of(s) > n ==> exists|k: int|
            0 <= k <= s.len() && byte_len_of(#[trigger] s.take(k)) == n && preview_of(s, n)
                == s.take(k) + "..."@,
        j matches JsonSpec::Text(t) ==> preview_text(j) == t,
        j is Null ==> preview_text(j).len() == 0,
        j is Array || j is Object ==> preview_text(j) == pretty_json(j),
        j is Bool || j is Int || j is Float ==> preview_text(j) == printed_json(j),
{
    if byte_len_of(s) > n {
        let k = lemma_clean_cut(s, n as int);
        assert(byte_len_of(s.take(k)) == n);
    }
}

/// The first tool of a name is found, and none where there is none.
pub proof fn law_first_tool_is_found(tools: Seq<&Tool>, name: Seq<char>)
    ensures
        match tool_index(tools, name) {
            Some(i) => 0 <= i < tools.len() && tools[i].name@ == name && forall|k: int|
                0 <= k < i ==> (#[trigger] tools[k]).name@ != name,
            None => forall|k: int| 0 <= k < tools.len() ==> (#[trigger] tools[k]).name@ != name,
        },
    decreases tools.len(),
{
    if tools.len() > 0 {
        let d = tools.drop_last();
        law_first_tool_is_found(d, name);
        match tool_index(d, name) {
            Some(i) => {
                assert(tools[i] == d[i]);
                assert forall|k: int| 0 <= k < i implies (#[trigger] tools[k]).name@ != name by {
                    assert(d[k] == tools[k]);
                }
            },
            None => {
                assert forall|k: int| 0 <= k < d.len() implies (#[trigger] tools[k]).name@
                    != name by {
                    assert(d[k] == tools[k]);
                }
            },
        }
    }
}

/// An argument is unknown exactly where the tool does not take it; the first is named.
pub proof fn law_first_unknown_argument_is_named(
    keys: Seq<Seq<char>>,
    args: Map<Seq<char>, ToolArg>,
)
    ensures
        match unknown_arg(keys, args) {
            Some(k) => !args.contains_key(k) && exists|i: int|
                0 <= i < keys.len() && keys[i] == k && forall|j: int|
                    0 <= j < i ==> args.contains_key(#[trigger] keys[j]),
            None => forall|i: int| 0 <= i < keys.len() ==> args.contains_key(#[trigger] keys[i]),
        },
    decreases keys.len(),
{
    if keys.len() > 0 {
        let d = keys.drop_last();
        let n = keys.len() - 1;
        law_first_unknown_argument_is_named(d, args);
        match unknown_arg(d, args) {
            Some(k) => {
                let i = choose|i: int|
                    0 <= i < d.len() && d[i] == k && forall|j: int|
                        0 <= j < i ==> args.contains_key(#[trigger] d[j]);
                assert(keys[i] == k);
                assert forall|j: int| 0 <= j < i implies args.contains_key(#[trigger] keys[j]) by {
                    assert(d[j] == keys[j]);
                }
            },
            None => {
                assert forall|j: int| 0 <= j < n implies args.contains_key(#[trigger] keys[j]) by {
                    assert(d[j] == keys[j]);
                }
                assert(keys[n] == keys.last());
            },
        }
    }
}

// ---------------------------------------------------------------------------
// Blocks of code
// ---------------------------------------------------------------------------

proof fn lemma_line_ends(s: Seq<char>, q: int, end: int)
    requires
        0 <= q <= end,
        end + 2 < s.len(),
        is_gap(s[end]) && s[end + 1] == '`' && s[end + 2] == '`',
        forall|k: int| q <= k < end ==> #[trigger] s[k] != '\n',
        forall|k: int|
            q <= k < end ==> !(is_gap(#[trigger] s[k]) && s[k + 1] == '`' && s[k + 2] == '`'),
    ensures
        line_end(s, q) == Some(end),
    decreases end - q,
{
    if q < end {
        assert(s[q] != '\n');
        lemma_line_ends(s, q + 1, end);
    }
}

proof fn lemma_block_is_first(s: Seq<char>, p: int, at: int)
    requires
        0 <= p <= at < s.len(),
        forall|j: int| p <= j < at ==> !#[trigger] occurs_at(s, "```"@, j),
        block_at(s, at) is Some,
    ensures
        first_block(s, p) == block_at(s, at),
    decreases at - p,
{
    if p < at {
        assert(!occurs_at(s, "```"@, p));
        lemma_block_is_first(s, p + 1, at);
    }
}

/// Code is taken from the first block of a reply that opens with the name of the language:
/// the line that it holds, but for line breaks that were written as escapes.
pub proof fn law_code_in_a_block_is_taken(before: Seq<char>, line: Seq<char>, rest: Seq<char>)
    requires
        !line.contains('\n'),
        !line.contains('`'),
        ({
            let s = before + "```python\n"@ + line + "\n```"@ + rest;
            forall|j: int| 0 <= j < before.len() ==> !#[trigger] occurs_at(s, "```"@, j)
        }),
    ensures
        code_block_of(before + "```python\n"@ + line + "\n```"@ + rest) == replace_of(
            line,
            "\\n"@,
            "\n"@,
        ),
{
    let s = before + "```python\n"@ + line + "\n```"@ + rest;
    reveal_strlit("```python\n");
    reveal_strlit("\n```");
    reveal_strlit("```");
    reveal_strlit("python");
    let n = before.len() as int;
    let start = n + 10;
    let end = start + line.len();
    assert(s.subrange(n, n + 3) =~= "```"@);
    assert(s.subrange(n + 3, n + 9) =~= "python"@);
    assert(s[n + 9] == '\n');
    assert(s[end] == '\n' && s[end + 1] == '`' && s[end + 2] == '`' && s[end + 3] == '`');
    assert forall|k: int| start <= k < end implies #[trigger] s[k] != '\n' && s[k] != '`' by {
        assert(s[k] == line[k - start]);
        assert(line.contains(line[k - start]));
    }
    assert forall|k: int| start <= k < end implies !(is_gap(#[trigger] s[k]) && s[k + 1] == '`'
        && s[k + 2] == '`') by {
        if k + 1 < end {
            assert(s[k + 1] != '`');
        } else {
            assert(s[k + 1] == '\n');
        }
    }
    lemma_line_ends(s, start, end);
    assert(gap_after_name(s, n + 3) == Some(n + 9));
    assert(s.subrange(start, end) =~= line);
    assert(block_at(s, n) == Some(line));
    lemma_block_is_first(s, 0, n);
}

} // verus!
