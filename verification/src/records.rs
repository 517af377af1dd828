//! What requests, messages, records and samples hold of what they were made from.

use crate::aggregation::text_map;
use crate::bootstrap_trace::trace_data_of;
use crate::claude_lm::{claude_args, claude_reply, extra_of};
use crate::cli::{
    after_system, code_text, failure_text, program_of, prompt_text, title_of, CliOutcome,
};
use crate::codex_lm::codex_args;
use crate::dataset::{
    eval_end, eval_start, identity, item_example, item_order, law_shuffling_is_a_permutation,
    per_seed, split_examples, taken,
};
use crate::embedder::{embed_request, merged_kwargs};
use crate::example::ExampleSpec;
use crate::json::{float_total, printed_json, JsonSpec};
use crate::knn::example_text;
use crate::lm::ConfigSpec;
use crate::message::MessageSpec;
use crate::parallel::ParallelSpec;
use crate::predict::{call_settings, TraceSpec};
use crate::prediction::PredictionSpec;
use crate::prompt::{
    lemma_joined_say, lemma_part_says, lemma_parts_say, lemma_says_both, lemma_says_itself,
    lemma_says_nothing, lemma_says_within, says,
};
use crate::sandboxed_interpreter::{code_message, request_of, tools_message};
use crate::streaming::{streamed, without_results, ListenerSpec, StreamSpec};
use crate::strmap::StrMap;
use crate::text::{dec_int, dec_of, join_of, trim_of};
use crate::tool::{call_json, texts_json, tool_json, ArgSpec};
use crate::unicode::upper_of;
use crate::usage_tracker::{added_usage, merged, total_usage};
use crate::value::ValueSpec;
use vstd::prelude::*;

verus! {

// ---------------------------------------------------------------------------
// Requests
// ---------------------------------------------------------------------------

proof fn lemma_texts_told_apart(a: Seq<Seq<char>>, b: Seq<Seq<char>>)
    requires
        texts_json(a) == texts_json(b),
    ensures
        a == b,
{
    let x = a.map_values(|t: Seq<char>| JsonSpec::Text(t));
    let y = b.map_values(|t: Seq<char>| JsonSpec::Text(t));
    assert(texts_json(a) == JsonSpec::Array(x) && texts_json(b) == JsonSpec::Array(y));
    assert(x == y);
    assert(a.len() == x.len() && b.len() == y.len());
    assert forall|i: int| 0 <= i < a.len() implies a[i] == b[i] by {
        assert(x[i] == JsonSpec::Text(a[i]) && y[i] == JsonSpec::Text(b[i]));
    }
    assert(a =~= b);
}

/// Requests for embeddings tell batches apart: two batches with one request have the same
/// model, the same texts in the same order and the same arguments.
pub proof fn law_embedding_requests_tell_batches_apart(
    model: Seq<char>,
    inputs: Seq<Seq<char>>,
    kwargs: Map<Seq<char>, JsonSpec>,
    other_model: Seq<char>,
    other_inputs: Seq<Seq<char>>,
    other_kwargs: Map<Seq<char>, JsonSpec>,
)
    requires
        embed_request(model, inputs, kwargs) == embed_request(
            other_model,
            other_inputs,
            other_kwargs,
        ),
    ensures
        model == other_model,
        inputs == other_inputs,
        kwargs == other_kwargs,
{
    reveal_strlit("_fn");
    reveal_strlit("model");
    reveal_strlit("inputs");
    reveal_strlit("kwargs");
    assert("_fn"@.len() == 3 && "model"@.len() == 5);
    assert("inputs"@[0] == 'i' && "kwargs"@[0] == 'k' && "inputs"@.len() == 6 && "kwargs"@.len()
        == 6);
    let p = embed_request(model, inputs, kwargs)->Object_0;
    let q = embed_request(other_model, other_inputs, other_kwargs)->Object_0;
    assert(p["model"@] == q["model"@]);
    assert(p["inputs"@] == q["inputs"@]);
    assert(p["kwargs"@] == q["kwargs"@]);
    lemma_texts_told_apart(inputs, other_inputs);
}

/// Arguments that are given win over those that are there by default, and the others stay.
pub proof fn law_given_arguments_win(
    defaults: Map<Seq<char>, JsonSpec>,
    given: Map<Seq<char>, JsonSpec>,
    k: Seq<char>,
)
    ensures
        given.contains_key(k) ==> merged_kwargs(defaults, Some(given)).contains_key(k)
            && merged_kwargs(defaults, Some(given))[k] == given[k],
        !given.contains_key(k) ==> merged_kwargs(defaults, Some(given)).contains_key(k)
            == defaults.contains_key(k) && (defaults.contains_key(k) ==> merged_kwargs(
            defaults,
            Some(given),
        )[k] == defaults[k]),
        merged_kwargs(defaults, None) == defaults,
{
}

/// The settings of a call are those of the model, but for the temperature, and that changes
/// only where several replies are asked for; then it is as it was or 0.7.
pub proof fn law_only_the_temperature_changes(c: ConfigSpec)
    ensures
        call_settings(c).model == c.model,
        call_settings(c).max_tokens == c.max_tokens,
        call_settings(c).top_p == c.top_p,
        call_settings(c).n == c.n,
        call_settings(c).temperature == c.temperature || call_settings(c).temperature == Some(
            "0.7"@,
        ),
        (c.n is None || c.n->Some_0 <= 1) ==> call_settings(c) == c,
        c.n is Some && c.n->Some_0 > 1 && c.temperature is None ==> call_settings(c).temperature
            == Some("0.7"@),
{
}

// ---------------------------------------------------------------------------
// Programs on the command line
// ---------------------------------------------------------------------------

/// What is said of a message: its role in upper case, then its content.
pub open spec fn message_told(m: MessageSpec) -> Seq<Seq<char>> {
    seq!["["@ + upper_of(m.role) + "]: "@, m.content]
}

/// What is said of messages, one after the other.
pub open spec fn messages_told(m: Seq<MessageSpec>) -> Seq<Seq<char>>
    decreases m.len(),
{
    if m.len() == 0 {
        Seq::empty()
    } else {
        messages_told(m.drop_last()) + message_told(m.last())
    }
}

proof fn lemma_messages_say(m: Seq<MessageSpec>)
    ensures
        says(
            join_of(m.map_values(|x: MessageSpec| crate::cli::labelled(x)), "\n\n"@),
            messages_told(m),
        ),
    decreases m.len(),
{
    let sep = "\n\n"@;
    let f = |x: MessageSpec| crate::cli::labelled(x);
    if m.len() == 0 {
        lemma_says_nothing(join_of(m.map_values(f), sep));
    } else {
        let d = m.drop_last();
        let x = m.last();
        lemma_messages_say(d);
        let head = "["@ + upper_of(x.role) + "]: "@;
        lemma_says_itself(head);
        lemma_says_itself(x.content);
        lemma_says_both(head, seq![head], x.content, seq![x.content]);
        assert(seq![head] + seq![x.content] =~= message_told(x));
        lemma_part_says(f(x), message_told(x), sep);
        lemma_joined_say(d.map_values(f), messages_told(d), seq![f(x)], message_told(x), sep);
        assert(d.map_values(f) + seq![f(x)] =~= m.map_values(f));
    }
}

/// The prompt for a program says every message but the first of the system, in order, each
/// with its role before its content.
pub proof fn law_prompt_says_every_message(m: Seq<MessageSpec>)
    ensures
        says(prompt_text(m), messages_told(after_system(m))),
{
    lemma_messages_say(after_system(m));
}

/// One argument follows another.
pub open spec fn follows_in(args: Seq<Seq<char>>, name: Seq<char>, value: Seq<char>) -> bool {
    exists|i: int|
        0 <= i && i + 1 < args.len() && #[trigger] args[i] == name && args[i + 1] == value
}

/// The first program is told the model and what the system says, that it is to print JSON,
/// and where they are disabled that it has no tools.
pub proof fn law_first_program_is_told_all(
    model: Seq<char>,
    disable_tools: bool,
    system: Option<Seq<char>>,
)
    ensures
        follows_in(claude_args(model, disable_tools, system), "--model"@, model),
        follows_in(claude_args(model, disable_tools, system), "--output-format"@, "json"@),
        disable_tools ==> follows_in(
            claude_args(model, disable_tools, system),
            "--tools"@,
            Seq::empty(),
        ),
        system matches Some(s) ==> follows_in(
            claude_args(model, disable_tools, system),
            "--system-prompt"@,
            s,
        ),
{
    let a = claude_args(model, disable_tools, system);
    assert(a[5] == "--model"@ && a[6] == model);
    assert(a[2] == "--output-format"@ && a[3] == "json"@);
    if disable_tools {
        assert(a[7] == "--tools"@ && a[8] == Seq::<char>::empty());
    }
    if let Some(s) = system {
        let n = a.len() as int;
        assert(a[n - 2] == "--system-prompt"@ && a[n - 1] == s);
    }
}

/// The reply of the first program is what its structured output says, as a text or in JSON,
/// or else its result, where that is not empty.
pub proof fn law_structured_output_goes_first(m: Map<Seq<char>, JsonSpec>)
    ensures
        ({
            let r = claude_reply(JsonSpec::Object(m));
            let s = "structured_output"@;
            let t = "result"@;
            &&& m.contains_key(s) && m[s] != JsonSpec::Null ==> (r matches Some(x) && (match m[s] {
                JsonSpec::Text(y) => x == y,
                _ => x == printed_json(m[s]),
            }))
            &&& !m.contains_key(s) || m[s] == JsonSpec::Null ==> r == (if m.contains_key(t) {
                match m[t] {
                    JsonSpec::Text(y) => if y.len() > 0 {
                        Some(y)
                    } else {
                        None
                    },
                    _ => None,
                }
            } else {
                None
            })
        }),
{
}

/// The second program is told its sandbox, what the system says and how much it is to
/// reason, each where there is such a thing, and last of all the prompt.
pub proof fn law_second_program_is_told_all(
    skip_git_check: bool,
    sandbox: Seq<char>,
    system: Option<Seq<char>>,
    reasoning_effort: Option<Seq<char>>,
    prompt: Seq<char>,
)
    ensures
        ({
            let a = codex_args(skip_git_check, sandbox, system, reasoning_effort, prompt);
            &&& a[0] == "exec"@
            &&& follows_in(a, "--sandbox"@, sandbox)
            &&& a.contains("--json"@)
            &&& skip_git_check ==> a.contains("--skip-git-repo-check"@)
            &&& system matches Some(s) ==> follows_in(a, "-c"@, "developer_instructions="@ + s)
            &&& reasoning_effort matches Some(s) ==> follows_in(
                a,
                "-c"@,
                "reasoning_effort="@ + s,
            )
            &&& a.len() > 1 && a[a.len() - 2] == "--"@ && a.last() == prompt
        }),
{
    let a = codex_args(skip_git_check, sandbox, system, reasoning_effort, prompt);
    let k: int = if skip_git_check {
        2
    } else {
        1
    };
    assert(a[k] == "--sandbox"@ && a[k + 1] == sandbox);
    assert(a[k + 2] == "--json"@);
    if skip_git_check {
        assert(a[1] == "--skip-git-repo-check"@);
    }
    if let Some(s) = system {
        assert(a[k + 3] == "-c"@ && a[k + 4] == "developer_instructions="@ + s);
    }
    if let Some(s) = reasoning_effort {
        let n = a.len() as int;
        assert(a[n - 4] == "-c"@ && a[n - 3] == "reasoning_effort="@ + s);
    }
}

/// What the arguments of the first program cannot say stands beside them: the temperature
/// and the share of probable words, each where it is set, and nothing else.
pub proof fn law_extra_settings_are_told(c: ConfigSpec)
    ensures
        extra_of(c).contains_key("temperature"@) == (c.temperature is Some),
        c.temperature matches Some(t) ==> extra_of(c)["temperature"@] == JsonSpec::Float(t),
        extra_of(c).contains_key("top_p"@) == (c.top_p is Some),
        c.top_p matches Some(t) ==> extra_of(c)["top_p"@] == JsonSpec::Float(t),
        forall|k: Seq<char>| #[trigger]
            extra_of(c).contains_key(k) ==> k == "temperature"@ || k == "top_p"@,
{
    reveal_strlit("temperature");
    reveal_strlit("top_p");
    assert("temperature"@.len() == 11 && "top_p"@.len() == 5);
}

// ---------------------------------------------------------------------------
// Tools and code in JSON
// ---------------------------------------------------------------------------

proof fn lemma_functions_told_apart(
    name: Seq<char>,
    rest: Map<Seq<char>, JsonSpec>,
    other_name: Seq<char>,
    other_rest: Map<Seq<char>, JsonSpec>,
)
    requires
        crate::tool::function_json(name, rest) == crate::tool::function_json(
            other_name,
            other_rest,
        ),
    ensures
        name == other_name,
        rest.insert("name"@, JsonSpec::Text(name)) == other_rest.insert(
            "name"@,
            JsonSpec::Text(other_name),
        ),
{
    reveal_strlit("type");
    reveal_strlit("function");
    assert("type"@.len() == 4 && "function"@.len() == 8);
    let p = crate::tool::function_json(name, rest)->Object_0;
    let q = crate::tool::function_json(other_name, other_rest)->Object_0;
    assert(p["function"@] == q["function"@]);
    let a = rest.insert("name"@, JsonSpec::Text(name));
    let b = other_rest.insert("name"@, JsonSpec::Text(other_name));
    assert(p["function"@] == JsonSpec::Object(a) && q["function"@] == JsonSpec::Object(b));
    assert(a["name"@] == b["name"@]);
}

/// A tool in JSON tells its name, its description, its arguments and which are required:
/// tools that differ in one of these differ in JSON.
pub proof fn law_tools_in_json_are_told_apart(
    name: Seq<char>,
    desc: Seq<char>,
    args: Map<Seq<char>, ArgSpec>,
    keys: Seq<Seq<char>>,
    other_name: Seq<char>,
    other_desc: Seq<char>,
    other_args: Map<Seq<char>, ArgSpec>,
    other_keys: Seq<Seq<char>>,
)
    requires
        tool_json(name, desc, args, keys) == tool_json(
            other_name,
            other_desc,
            other_args,
            other_keys,
        ),
    ensures
        name == other_name,
        desc == other_desc,
        keys == other_keys,
        args.dom() == other_args.dom(),
        forall|k: Seq<char>| #[trigger]
            args.contains_key(k) ==> args[k].arg_type == other_args[k].arg_type
                && args[k].description == other_args[k].description && args[k].default
                == other_args[k].default,
{
    reveal_strlit("name");
    reveal_strlit("description");
    reveal_strlit("parameters");
    reveal_strlit("type");
    reveal_strlit("properties");
    reveal_strlit("required");
    reveal_strlit("default");
    assert("name"@.len() == 4 && "description"@.len() == 11 && "parameters"@.len() == 10);
    assert("type"@.len() == 4 && "properties"@.len() == 10 && "required"@.len() == 8);
    assert("default"@.len() == 7);
    let x = args.map_values(|a: ArgSpec| crate::tool::arg_json(a));
    let y = other_args.map_values(|a: ArgSpec| crate::tool::arg_json(a));
    let e = Map::<Seq<char>, JsonSpec>::empty();
    let p = e.insert("type"@, JsonSpec::Text("object"@)).insert(
        "properties"@,
        JsonSpec::Object(x),
    ).insert("required"@, texts_json(keys));
    let q = e.insert("type"@, JsonSpec::Text("object"@)).insert(
        "properties"@,
        JsonSpec::Object(y),
    ).insert("required"@, texts_json(other_keys));
    let a = e.insert("description"@, JsonSpec::Text(desc)).insert(
        "parameters"@,
        JsonSpec::Object(p),
    );
    let b = e.insert("description"@, JsonSpec::Text(other_desc)).insert(
        "parameters"@,
        JsonSpec::Object(q),
    );
    lemma_functions_told_apart(name, a, other_name, b);
    let a2 = a.insert("name"@, JsonSpec::Text(name));
    let b2 = b.insert("name"@, JsonSpec::Text(other_name));
    assert(a2["description"@] == b2["description"@]);
    assert(a2["parameters"@] == b2["parameters"@]);
    assert(p["properties"@] == q["properties"@]);
    assert(p["required"@] == q["required"@]);
    lemma_texts_told_apart(keys, other_keys);
    assert(x == y);
    assert(args.dom() =~= x.dom() && other_args.dom() =~= y.dom());
    assert forall|k: Seq<char>| #[trigger] args.contains_key(k) implies args[k].arg_type
        == other_args[k].arg_type && args[k].description == other_args[k].description
        && args[k].default == other_args[k].default by {
        assert(x.contains_key(k) && y.contains_key(k));
        assert(x[k] == y[k]);
        lemma_args_told_apart(args[k], other_args[k]);
    }
}

proof fn lemma_args_told_apart(a: ArgSpec, b: ArgSpec)
    requires
        crate::tool::arg_json(a) == crate::tool::arg_json(b),
    ensures
        a.arg_type == b.arg_type,
        a.description == b.description,
        a.default == b.default,
{
    reveal_strlit("type");
    reveal_strlit("description");
    reveal_strlit("default");
    assert("type"@.len() == 4 && "description"@.len() == 11 && "default"@.len() == 7);
    let p = crate::tool::arg_json(a)->Object_0;
    let q = crate::tool::arg_json(b)->Object_0;
    assert(p["type"@] == q["type"@]);
    assert(p.contains_key("description"@) == q.contains_key("description"@));
    assert(p.contains_key("default"@) == q.contains_key("default"@));
    if a.description is Some {
        assert(p["description"@] == q["description"@]);
    }
    if a.default is Some {
        assert(p["default"@] == q["default"@]);
    }
}

/// A call of a tool in JSON tells the name of the tool and all its arguments.
pub proof fn law_calls_in_json_are_told_apart(
    name: Seq<char>,
    args: Map<Seq<char>, JsonSpec>,
    other_name: Seq<char>,
    other_args: Map<Seq<char>, JsonSpec>,
)
    requires
        call_json(name, args) == call_json(other_name, other_args),
    ensures
        name == other_name,
        args == other_args,
{
    reveal_strlit("name");
    reveal_strlit("arguments");
    assert("name"@.len() == 4 && "arguments"@.len() == 9);
    let e = Map::<Seq<char>, JsonSpec>::empty();
    let a = e.insert("arguments"@, JsonSpec::Object(args));
    let b = e.insert("arguments"@, JsonSpec::Object(other_args));
    lemma_functions_told_apart(name, a, other_name, b);
    assert(a.insert("name"@, JsonSpec::Text(name))["arguments"@] == b.insert(
        "name"@,
        JsonSpec::Text(other_name),
    )["arguments"@]);
}

/// What the sandbox is told of code is all of it, and the variables.
pub proof fn law_code_reaches_the_sandbox(
    code: Seq<char>,
    variables: Option<Map<Seq<char>, JsonSpec>>,
)
    ensures
        ({
            let m = code_message(code, variables);
            &&& m matches JsonSpec::Object(o) && o.contains_key("code"@) && o["code"@]
                == JsonSpec::Text(code) && o.contains_key("variables"@) == (variables is Some) && (
            variables matches Some(v) ==> o["variables"@] == JsonSpec::Object(v))
        }),
{
    reveal_strlit("code");
    reveal_strlit("variables");
    assert("code"@.len() == 4 && "variables"@.len() == 9);
}

/// Requests to the sandbox tell their method, their parameters and their number.
pub proof fn law_sandbox_requests_are_told_apart(
    method: Seq<char>,
    params: JsonSpec,
    id: JsonSpec,
    other_method: Seq<char>,
    other_params: JsonSpec,
    other_id: JsonSpec,
)
    requires
        request_of(method, params, id) == request_of(other_method, other_params, other_id),
    ensures
        method == other_method,
        params == other_params,
        id == other_id,
{
    reveal_strlit("jsonrpc");
    reveal_strlit("method");
    reveal_strlit("params");
    reveal_strlit("id");
    assert("jsonrpc"@.len() == 7 && "method"@[0] == 'm' && "params"@[0] == 'p' && "id"@.len()
        == 2);
    assert("method"@.len() == 6 && "params"@.len() == 6);
    let p = request_of(method, params, id)->Object_0;
    let q = request_of(other_method, other_params, other_id)->Object_0;
    assert(p["method"@] == q["method"@]);
    assert(p["params"@] == q["params"@]);
    assert(p["id"@] == q["id"@]);
}

/// The sandbox is told the names of all tools, in order.
pub proof fn law_every_tool_reaches_the_sandbox(a: Seq<Seq<char>>, b: Seq<Seq<char>>)
    requires
        tools_message(a) == tools_message(b),
    ensures
        a == b,
{
    let f = |n: Seq<char>| crate::sandboxed_interpreter::single("name"@, JsonSpec::Text(n));
    let x = a.map_values(f);
    let y = b.map_values(f);
    let p = tools_message(a)->Object_0;
    let q = tools_message(b)->Object_0;
    assert(p["tools"@] == JsonSpec::Array(x) && q["tools"@] == JsonSpec::Array(y));
    assert(x == y);
    assert(a.len() == x.len() && b.len() == y.len());
    assert forall|i: int| 0 <= i < a.len() implies a[i] == b[i] by {
        assert(x[i] == y[i]);
        let m = x[i]->Object_0;
        let n = y[i]->Object_0;
        assert(m["name"@] == JsonSpec::Text(a[i]) && n["name"@] == JsonSpec::Text(b[i]));
    }
    assert(a =~= b);
}

// ---------------------------------------------------------------------------
// Usage
// ---------------------------------------------------------------------------

/// Usage is added to the entries of its model, after those that are there, and to no
/// other's; an entry that says nothing is not kept.
pub proof fn law_usage_goes_to_its_model(
    u: Map<Seq<char>, Seq<JsonSpec>>,
    lm: Seq<char>,
    entry: Map<Seq<char>, JsonSpec>,
)
    ensures
        ({
            let after = added_usage(u, lm, JsonSpec::Object(entry));
            &&& entry.dom().is_empty() ==> after == u
            &&& !entry.dom().is_empty() ==> after.contains_key(lm) && after[lm].last()
                == JsonSpec::Object(entry) && after[lm].drop_last() == (if u.contains_key(lm) {
                u[lm]
            } else {
                Seq::empty()
            })
            &&& forall|k: Seq<char>|
                k != lm ==> (#[trigger] after.contains_key(k) == u.contains_key(k)) && (
                u.contains_key(k) ==> after[k] == u[k])
        }),
{
    let after = added_usage(u, lm, JsonSpec::Object(entry));
    let none = Map::<Seq<char>, JsonSpec>::empty();
    if entry.dom().is_empty() {
        assert(entry =~= none);
    } else {
        assert(entry != none) by {
            if entry == none {
                assert(entry.dom() =~= Set::<Seq<char>>::empty());
            }
        }
        if u.contains_key(lm) {
            assert(after[lm].drop_last() =~= u[lm]);
        } else {
            assert(after[lm].drop_last() =~= Seq::<JsonSpec>::empty());
        }
    }
}

/// Merged usage has what either entry has: what only one has stays as it is, and what both
/// have as objects is merged in turn.
pub proof fn law_merging_keeps_every_count(
    a: Map<Seq<char>, JsonSpec>,
    b: Map<Seq<char>, JsonSpec>,
    flip: bool,
)
    ensures
        merged(JsonSpec::Object(a), JsonSpec::Object(b), flip) matches JsonSpec::Object(m) && {
            &&& forall|k: Seq<char>| #[trigger]
                m.contains_key(k) <==> a.contains_key(k) || b.contains_key(k)
            &&& forall|k: Seq<char>|
                #![trigger m[k]]
                a.contains_key(k) && !b.contains_key(k) ==> m[k] == a[k]
            &&& forall|k: Seq<char>|
                #![trigger m[k]]
                b.contains_key(k) && !a.contains_key(k) ==> m[k] == b[k]
            &&& forall|k: Seq<char>|
                #![trigger m[k]]
                a.contains_key(k) && b.contains_key(k) && (a[k] is Object || b[k] is Object)
                    ==> m[k] == merged(a[k], b[k], !flip)
        },
{
}

// ---------------------------------------------------------------------------
// Traces
// ---------------------------------------------------------------------------

/// Where every predictor left a trace of every example, the traces are shared out in order:
/// each example has as many as there are predictors, with their inputs and outputs, beside
/// what it was, what was predicted and, where it is wanted, the score.
pub proof fn law_traces_are_shared_out<S>(
    results: Seq<(ExampleSpec, PredictionSpec, S)>,
    traces: Seq<TraceSpec>,
    predictors: nat,
    scored: bool,
    i: int,
)
    requires
        0 <= i < results.len(),
        traces.len() == predictors * results.len(),
    ensures
        ({
            let d = trace_data_of(results, traces, predictors, scored, i);
            &&& d.example_ind == i
            &&& d.example == results[i].0
            &&& d.prediction == results[i].1
            &&& d.score == (if scored {
                Some(results[i].2)
            } else {
                None
            })
            &&& d.trace.len() == predictors
            &&& forall|j: int|
                0 <= j < predictors ==> (#[trigger] d.trace[j]).inputs == traces[i * predictors
                    + j].inputs && d.trace[j].outputs == traces[i * predictors + j].outputs
        }),
{
    let n = predictors as int;
    let m = results.len() as int;
    assert((i + 1) * n <= n * m) by (nonlinear_arith)
        requires
            0 <= i < m,
            0 <= n,
    ;
    assert(i * n <= (i + 1) * n && (i + 1) * n == i * n + n) by (nonlinear_arith)
        requires
            0 <= n,
    ;
    assert(0 <= i * n) by (nonlinear_arith)
        requires
            0 <= i,
            0 <= n,
    ;
}

// ---------------------------------------------------------------------------
// Samples
// ---------------------------------------------------------------------------

/// A split holds as many items as there are and are asked for, each an item of the data and
/// none twice; without shuffling they are the first, in order. Each says what its item
/// says, and which split it is of, and has the inputs that are named.
pub proof fn law_split_is_drawn_from_the_data(
    data: Seq<StrMap<String>>,
    split: Seq<char>,
    size: Option<usize>,
    shuffle: bool,
    seed: nat,
    input_keys: Seq<Seq<char>>,
)
    ensures
        ({
            let r = split_examples(data, split, size, shuffle, seed, input_keys);
            let order = item_order(data.len(), shuffle, seed);
            &&& r.len() == (if size is Some && size->Some_0 < data.len() {
                size->Some_0 as int
            } else {
                data.len() as int
            })
            &&& order.no_duplicates()
            &&& are_items(r, data, order, split, input_keys)
            &&& !shuffle ==> forall|i: int| 0 <= i < data.len() ==> #[trigger] order[i] == i
        }),
{
    broadcast use vstd::seq_lib::group_to_multiset_ensures;

    let n = data.len();
    let r = split_examples(data, split, size, shuffle, seed, input_keys);
    let order = item_order(n, shuffle, seed);
    let id = identity(n);
    law_shuffling_is_a_permutation(n, seed);
    assert(id.no_duplicates());
    id.lemma_multiset_has_no_duplicates();
    assert(order.to_multiset() == id.to_multiset());
    order.lemma_multiset_has_no_duplicates_conv();
    assert(order.len() == n);
    assert(r.len() == taken(n, size));
    assert forall|i: int| 0 <= i < n implies 0 <= #[trigger] order[i] < n by {
        assert(order.contains(order[i]));
        assert(order.to_multiset().count(order[i]) > 0);
        assert(id.to_multiset().count(order[i]) > 0);
        assert(id.contains(order[i]));
        let k = choose|k: int| 0 <= k < id.len() && id[k] == order[i];
        assert(id[k] == k);
    }
    lemma_items(r, data, order, split, input_keys);
}

proof fn lemma_items(
    r: Seq<ExampleSpec>,
    data: Seq<StrMap<String>>,
    order: Seq<int>,
    split: Seq<char>,
    input_keys: Seq<Seq<char>>,
)
    requires
        r.len() <= order.len() == data.len(),
        forall|i: int| 0 <= i < order.len() ==> 0 <= #[trigger] order[i] < data.len(),
        r == order.take(r.len() as int).map_values(
            |i: int| item_example(data[i], split, input_keys),
        ),
    ensures
        are_items(r, data, order, split, input_keys),
{
    assert forall|i: int| #![trigger r[i]] 0 <= i < r.len() implies 0 <= order[i] < data.len()
        && says_item(r[i], data[order[i]], split, input_keys) by {
        assert(0 <= order[i] < data.len());
        assert(r[i] == item_example(data[order[i]], split, input_keys));
        lemma_says_item(data[order[i]], split, input_keys);
    }
}

proof fn lemma_says_item(item: StrMap<String>, split: Seq<char>, input_keys: Seq<Seq<char>>)
    ensures
        says_item(item_example(item, split, input_keys), item, split, input_keys),
{
    let e = item_example(item, split, input_keys);
    assert(e.store.dom() =~= item@.dom().insert("dspy_split"@));
    assert forall|k: Seq<char>|
        k != "dspy_split"@ && #[trigger] item@.contains_key(k) implies e.store[k]
        == ValueSpec::Text(item@[k]@) by {
        assert(text_map(item)[k] == item@[k]@);
    }
}

/// Examples say what the items at some positions of the data say.
pub open spec fn are_items(
    r: Seq<ExampleSpec>,
    data: Seq<StrMap<String>>,
    order: Seq<int>,
    split: Seq<char>,
    input_keys: Seq<Seq<char>>,
) -> bool {
    forall|i: int|
        #![trigger r[i]]
        0 <= i < r.len() ==> 0 <= order[i] < data.len() && says_item(
            r[i],
            data[order[i]],
            split,
            input_keys,
        )
}

/// An example says what an item says, and which split it is of, and has the inputs that are
/// named.
pub open spec fn says_item(
    e: ExampleSpec,
    item: StrMap<String>,
    split: Seq<char>,
    input_keys: Seq<Seq<char>>,
) -> bool {
    &&& e.store.dom() == item@.dom().insert("dspy_split"@)
    &&& e.store["dspy_split"@] == ValueSpec::Text(split)
    &&& forall|k: Seq<char>|
        k != "dspy_split"@ && #[trigger] item@.contains_key(k) ==> e.store[k] == ValueSpec::Text(
            item@[k]@,
        )
    &&& input_keys.len() > 0 ==> e.input_keys == Some(input_keys.to_set())
    &&& input_keys.len() == 0 ==> e.input_keys is None
}

/// Where the examples for evaluation are divided among the seeds, each seed has a share of
/// its own: none reaches into the next, and none is larger than an equal share.
pub proof fn law_shares_do_not_overlap(dev_size: nat, seeds: nat, total: nat, i: nat, j: nat)
    requires
        seeds > 0,
        i < j < seeds,
    ensures
        ({
            let per = per_seed(dev_size, seeds, true);
            &&& eval_end(i, per, true, total) <= eval_start(j, per, true) || eval_start(
                j,
                per,
                true,
            ) >= total
            &&& per * seeds <= dev_size
            &&& eval_end(i, per, true, total) <= total
            &&& eval_end(i, per, true, total) <= eval_start(i, per, true) + per
        }),
{
    let per = per_seed(dev_size, seeds, true);
    assert(i * per + per <= j * per) by (nonlinear_arith)
        requires
            i < j,
            0 <= per,
    ;
    assert(per * seeds <= dev_size) by (nonlinear_arith)
        requires
            seeds > 0,
            per == dev_size / seeds,
    ;
}

/// The text of an example that is compared by its likeness says every input that it has, its
/// name before its text.
pub proof fn law_likeness_is_of_every_input(e: ExampleSpec)
    ensures
        says(
            example_text(e),
            e.inputs().keys.map_values(
                |k: Seq<char>|
                    k + ": "@ + (match e.inputs().text(k) {
                        Some(t) => t,
                        None => Seq::empty(),
                    }),
            ),
        ),
{
    let x = crate::knn::field_lines(e.inputs());
    lemma_parts_say(x, " | "@);
    assert(x =~= e.inputs().keys.map_values(
        |k: Seq<char>|
            k + ": "@ + (match e.inputs().text(k) {
                Some(t) => t,
                None => Seq::empty(),
            }),
    ));
}

// ---------------------------------------------------------------------------
// Streams
// ---------------------------------------------------------------------------

proof fn lemma_without_results(v: Seq<StreamSpec>)
    ensures
        without_results(v) == v.filter(|x: StreamSpec| !(x is Result)),
    decreases v.len(),
{
    reveal(Seq::filter);
    if v.len() > 0 {
        lemma_without_results(v.drop_last());
    }
}

/// A program streams an opening status, then all that was sent while it ran but
/// predictions, then what is left of the fields, and in the end its prediction, where that
/// is shown, or its error.
pub proof fn law_stream_holds_what_was_sent(
    module: Seq<char>,
    start: Option<Seq<char>>,
    sent: Seq<StreamSpec>,
    listeners: Seq<ListenerSpec>,
    result: std::result::Result<PredictionSpec, Seq<char>>,
    end: Option<Seq<char>>,
    wanted: bool,
)
    ensures
        ({
            let r = streamed(module, start, sent, listeners, result, end, wanted);
            let kept = sent.filter(|x: StreamSpec| !(x is Result));
            &&& r.len() >= 1 + kept.len()
            &&& r[0] matches StreamSpec::Status(m, w) && w == Some(module) && (start matches Some(
                s,
            ) ==> m == s)
            &&& r.subrange(1, (kept.len() + 1) as int) == kept
            &&& result matches Err(e) ==> r.last() == StreamSpec::Status("Error: "@ + e, Some(module))
            &&& result is Ok && (wanted || listeners.len() == 0) ==> r.last()
                == StreamSpec::Result(result->Ok_0)
        }),
{
    lemma_without_results(sent);
    let r = streamed(module, start, sent, listeners, result, end, wanted);
    let kept = without_results(sent);
    assert(r.subrange(1, (kept.len() + 1) as int) =~= kept);
}

/// A number as text.
pub open spec fn numeral_in(j: JsonSpec) -> Seq<char> {
    match j {
        JsonSpec::Int(n) => dec_int(n),
        JsonSpec::Float(t) => t,
        _ => "0"@,
    }
}

/// Counts that both entries have are added up.
pub proof fn law_merging_adds_the_counts(
    a: Map<Seq<char>, JsonSpec>,
    b: Map<Seq<char>, JsonSpec>,
    flip: bool,
    k: Seq<char>,
)
    requires
        a.contains_key(k),
        b.contains_key(k),
        !(a[k] is Object),
        !(b[k] is Object),
    ensures
        merged(JsonSpec::Object(a), JsonSpec::Object(b), flip) matches JsonSpec::Object(m)
            && m.contains_key(k) && (m[k] == float_total(numeral_in(a[k]), numeral_in(b[k])) || m[k]
            == float_total(numeral_in(b[k]), numeral_in(a[k]))),
{
}

/// The total has every count that any entry has.
pub proof fn law_total_has_every_count(entries: Seq<JsonSpec>, i: int, k: Seq<char>)
    requires
        forall|n: int| 0 <= n < entries.len() ==> (#[trigger] entries[n]) is Object,
        0 <= i < entries.len(),
        entries[i]->Object_0.contains_key(k),
    ensures
        total_usage(entries) matches JsonSpec::Object(m) && m.contains_key(k),
    decreases entries.len(),
{
    let d = entries.drop_last();
    let last = entries.last();
    assert(entries[entries.len() - 1] is Object);
    assert forall|n: int| 0 <= n < d.len() implies (#[trigger] d[n]) is Object by {
        assert(d[n] == entries[n]);
    }
    lemma_total_is_object(d);
    let before = total_usage(d)->Object_0;
    let m = merged(JsonSpec::Object(before), last, false);
    law_merging_keeps_every_count(before, last->Object_0, false);
    if i < d.len() {
        assert(d[i] == entries[i]);
        law_total_has_every_count(d, i, k);
    }
    assert(m->Object_0.contains_key(k));
}

proof fn lemma_total_is_object(entries: Seq<JsonSpec>)
    ensures
        total_usage(entries) is Object,
    decreases entries.len(),
{
    if entries.len() > 0 {
        lemma_total_is_object(entries.drop_last());
    }
}

/// A run that ended without a reply is told by what the program said of it, or by what kept
/// it from running.
pub proof fn law_failed_run_is_told(o: CliOutcome, label: Seq<char>, timeout_secs: nat)
    ensures
        match o {
            CliOutcome::Exited { success, code, stdout, stderr } => says(
                failure_text(o, label, timeout_secs),
                seq![code_text(code), trim_of(stderr@)],
            ),
            CliOutcome::NotStarted(e) => says(failure_text(o, label, timeout_secs), seq![e@]),
            CliOutcome::Broken(e) => says(failure_text(o, label, timeout_secs), seq![e@]),
            CliOutcome::TimedOut => says(
                failure_text(o, label, timeout_secs),
                seq![dec_of(timeout_secs)],
            ),
        },
{
    let none = Seq::<char>::empty();
    let title = title_of(label);
    match o {
        CliOutcome::Exited { success, code, stdout, stderr } => {
            let c = code_text(code);
            let e = trim_of(stderr@);
            lemma_says_itself(c);
            lemma_says_itself(e);
            lemma_says_within(title + " CLI exited with code "@, c, seq![c], ": "@);
            lemma_says_both(title + " CLI exited with code "@ + c + ": "@, seq![c], e, seq![e]);
            assert(seq![c] + seq![e] =~= seq![c, e]);
        },
        CliOutcome::NotStarted(e) => {
            let begin = "Failed to spawn "@ + program_of(label) + " CLI: "@;
            lemma_says_itself(e@);
            lemma_says_within(begin, e@, seq![e@], none);
            assert(begin + e@ + none =~= failure_text(o, label, timeout_secs));
        },
        CliOutcome::Broken(e) => {
            lemma_says_itself(e@);
            lemma_says_within(title + " CLI error: "@, e@, seq![e@], none);
            assert(title + " CLI error: "@ + e@ + none =~= failure_text(o, label, timeout_secs));
        },
        CliOutcome::TimedOut => {
            let d = dec_of(timeout_secs);
            lemma_says_itself(d);
            lemma_says_within(title + " CLI timed out after "@, d, seq![d], "s"@);
        },
    }
}

/// What modules that run side by side give is kept in their order: a prediction at the place
/// of its module, and of a failure the message and the place. What is there already stays.
pub proof fn law_results_keep_their_places(s: ParallelSpec, p: PredictionSpec, message: Seq<char>)
    ensures
        ({
            let n = s.results.len() as int;
            let a = s.with_prediction(p);
            let b = s.with_failure(message);
            &&& a.results.len() == n + 1 && a.results[n] == Some(p) && a.results.take(n)
                == s.results
            &&& a.failed_indices == s.failed_indices && a.exceptions == s.exceptions
            &&& b.results.len() == n + 1 && b.results[n] is None && b.results.take(n) == s.results
            &&& b.failed_indices.last() == n && b.failed_indices.drop_last() == s.failed_indices
            &&& b.exceptions.last() == message && b.exceptions.drop_last() == s.exceptions
            &&& s.with_gap().results.take(n) == s.results && s.with_gap().failed_indices
                == s.failed_indices
        }),
{
    let n = s.results.len() as int;
    assert(s.with_prediction(p).results.take(n) =~= s.results);
    assert(s.with_failure(message).results.take(n) =~= s.results);
    assert(s.with_failure(message).failed_indices.drop_last() =~= s.failed_indices);
    assert(s.with_failure(message).exceptions.drop_last() =~= s.exceptions);
    assert(s.with_gap().results.take(n) =~= s.results);
}

} // verus!
