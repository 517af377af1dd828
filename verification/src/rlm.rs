//! A recursive language model: a model explores its inputs by code, step by step,
//! and hands in its outputs.

use crate::adapter::{around, tick_list, ticked_list};
use crate::error::{is_other_error, DspyError, Result};
use crate::example::{value_map, values_from_json, Example, ExampleSpec};
use crate::interpreter::{CodeInterpreterError, ExecutionResult, FinalOutput};
use crate::json::{
    copy_object, empty_object, json_list, json_object, lemma_json_list, lemma_json_object,
    new_object, printed_json, put, Json, JsonSpec,
};
use crate::lm::{response_list, LMResponse, ResponseSpec};
use crate::message::{message_list, Message, MessageSpec};
use crate::predict::{named, two_named, Predict, PredictSpec};
use crate::prediction::{field_text, Prediction, PredictionSpec};
use crate::repl_types::{
    all_can_cut, can_cut, can_cut_at, describes, entry_json, format_repl_variable, history_text,
    preview_text, text_or_empty, try_create_repl_variable, variable_lines, EntrySpec, REPLHistory,
    REPLVariable,
};
use crate::signature::{
    field_list, input_field, name_index, names, output_field, push_field, upsert_all, FieldDef,
    FieldSpec, FieldType, SigSpec, Signature,
};
use crate::strmap::StrMap;
use crate::text::{
    begins_with, byte_len, byte_len_of, byte_prefix, byte_prefix_of, chars_of, dec_of, dec_size,
    finishes_with, is_white, is_whitespace, join, join_of, lemma_clean_cut, matches_at, push_text,
    replace, replace_of, slice_text, sort_texts, sorted_of, texts, trim, trim_of,
};
use crate::value::{json_of, reads_as, Value, ValueSpec};
use vstd::prelude::*;

verus! {

// ---------------------------------------------------------------------------
// Code
// ---------------------------------------------------------------------------

/// Where the last line break stands.
pub open spec fn last_break(s: Seq<char>) -> Option<int>
    decreases s.len(),
{
    if s.len() == 0 {
        None
    } else if s.last() == '\n' {
        Some(s.len() - 1)
    } else {
        last_break(s.drop_last())
    }
}

/// Every character is white space.
pub open spec fn all_white(s: Seq<char>) -> bool {
    forall|i: int| 0 <= i < s.len() ==> is_white(#[trigger] s[i])
}

/// What may stand after the opening of a code block: the name of the language, if
/// any, and white space.
pub open spec fn is_fence_head(s: Seq<char>) -> bool {
    ||| all_white(s)
    ||| begins_with(s, "python"@) && all_white(s.skip("python"@.len() as int))
    ||| begins_with(s, "py"@) && all_white(s.skip("py"@.len() as int))
}

/// The line in a code block that holds one line of code.
pub open spec fn fenced_line(code: Seq<char>) -> Option<Seq<char>> {
    if code.len() >= 8 && begins_with(code, "```"@) && finishes_with(code, "\n```"@) {
        let body = code.subrange(3, code.len() - 4);
        match last_break(body) {
            Some(k) => if is_fence_head(body.take(k)) {
                Some(body.skip(k + 1))
            } else {
                None
            },
            None => None,
        }
    } else {
        None
    }
}

/// Code without the fences of a block that holds one line of it.
pub open spec fn without_fences(code: Seq<char>) -> Seq<char> {
    match fenced_line(trim_of(code)) {
        Some(line) => line,
        None => trim_of(code),
    }
}

fn white_from(v: &Vec<char>, from: usize) -> (r: bool)
    requires
        from <= v@.len(),
    ensures
        r == all_white(v@.skip(from as int)),
{
    let mut i: usize = from;
    while i < v.len()
        invariant
            from <= i <= v.len(),
            forall|k: int| from <= k < i ==> is_white(#[trigger] v@[k]),
        decreases v.len() - i,
    {
        if !is_whitespace(v[i]) {
            proof {
                assert(v@.skip(from as int)[i - from] == v@[i as int]);
            }
            return false;
        }
        i = i + 1;
    }
    proof {
        assert forall|k: int| 0 <= k < v@.skip(from as int).len() implies is_white(
            #[trigger] v@.skip(from as int)[k],
        ) by {
            assert(is_white(v@[from + k]));
        }
    }
    true
}

fn fence_head(v: &Vec<char>) -> (r: bool)
    ensures
        r == is_fence_head(v@),
{
    proof {
        assert(v@.skip(0) =~= v@);
    }
    if white_from(v, 0) {
        return true;
    }
    let python = chars_of("python");
    if matches_at(v, &python, 0) && white_from(v, python.len()) {
        return true;
    }
    let py = chars_of("py");
    matches_at(v, &py, 0) && white_from(v, py.len())
}

/// Code without the fences of a block that holds one line of it.
pub fn strip_code_fences(code: &str) -> (r: String)
    ensures
        r@ == without_fences(code@),
{
    let trimmed = trim(code);
    let v = chars_of(trimmed.as_str());
    let n: usize = v.len();
    let open = chars_of("```");
    let close = chars_of("\n```");
    proof {
        reveal_strlit("```");
        reveal_strlit("\n```");
    }
    if n >= 8 && matches_at(&v, &open, 0) && matches_at(&v, &close, n - 4) {
        let end: usize = n - 4;
        let ghost body = v@.subrange(3, end as int);
        let mut k: usize = end;
        proof {
            assert(body.take(k - 3) =~= body);
        }
        while k > 3
            invariant
                3 <= k <= end,
                end == n - 4,
                n == v@.len(),
                n >= 8,
                v@ == trimmed@,
                trimmed@ == trim_of(code@),
                body == v@.subrange(3, end as int),
                begins_with(v@, "```"@),
                finishes_with(v@, "\n```"@),
                last_break(body) == last_break(body.take(k - 3)),
            decreases k,
        {
            proof {
                assert(body.take(k - 3).last() == v@[k - 1]);
                assert(body.take(k - 3).drop_last() =~= body.take(k - 4));
            }
            if v[k - 1] == '\n' {
                let head = chars_of(slice_text(&v, 3, k - 1).as_str());
                proof {
                    assert(head@ =~= body.take(k - 4));
                }
                if fence_head(&head) {
                    let line = slice_text(&v, k, end);
                    proof {
                        assert(line@ =~= body.skip(k - 3));
                    }
                    return line;
                }
                return trimmed;
            }
            k = k - 1;
        }
    }
    trimmed
}

// ---------------------------------------------------------------------------
// Signatures
// ---------------------------------------------------------------------------

/// The instructions of a step, with places for the particulars of a task.
pub open spec fn action_template() -> Seq<char> {
    "You are tasked with producing the following outputs given the inputs {inputs}:\n{output_fields}\n\nYou have access to a Python REPL environment. Write Python code and it will be executed. You will see the output, then write more code based on what you learned. This is an iterative process.\n\nAvailable:\n- Variables: {inputs} (your input data)\n- `llm_query(prompt)` - query a sub-LLM (~500K char capacity) for semantic analysis\n- `llm_query_batched(prompts)` - query multiple prompts concurrently (much faster for multiple queries)\n- `print()` - ALWAYS print to see results\n- `SUBMIT({final_output_names})` - submit final output when done\n- Standard libraries: re, json, collections, math, etc.\n\nIMPORTANT: This is ITERATIVE. Each code block you write will execute, you'll see the output, then you decide what to do next. Do NOT try to solve everything in one step.\n\n1. EXPLORE FIRST - Look at your data before processing it. Print samples, check types/lengths, understand the structure.\n2. ITERATE - Write small code snippets, observe outputs, then decide next steps. State persists between iterations.\n3. VERIFY BEFORE SUBMITTING - If results seem wrong (zeros, empty, unexpected), reconsider your approach.\n4. USE llm_query FOR SEMANTICS - String matching finds WHERE things are; llm_query understands WHAT things mean.\n5. MINIMIZE RETYPING (INPUTS & OUTPUTS) - When values are long, precise, or error-prone (IDs, numbers, code, quotes), re-access them via variables and parse/compute in code instead of retyping. Use small, targeted prints to sanity-check, but avoid manual copying when variables can carry the exact value.\n6. SUBMIT ONLY AFTER SEEING OUTPUTS - SUBMIT ends the current run immediately. If you need to inspect printed output, run it in one step, review the result, then call SUBMIT in a later step.\n\nYou have max {max_llm_calls} sub-LLM calls. When done, call SUBMIT() with your output."@
}

/// The lines that list names.
pub open spec fn dashed(names: Seq<Seq<char>>) -> Seq<Seq<char>> {
    names.map_values(|n: Seq<char>| "- "@ + n)
}

/// The task's own instructions before the others.
pub open spec fn task_instructions(s: SigSpec) -> Seq<char> {
    if s.instructions.len() > 0 {
        s.instructions + "\n\n"@
    } else {
        Seq::empty()
    }
}

/// The instructions of a step.
pub open spec fn action_instructions(s: SigSpec, max_llm_calls: nat) -> Seq<char> {
    let a = replace_of(action_template(), "{inputs}"@, ticked_list(names(s.inputs())));
    let b = replace_of(a, "{final_output_names}"@, join_of(names(s.outputs()), ", "@));
    let c = replace_of(b, "{output_fields}"@, join_of(dashed(names(s.outputs())), "\n"@));
    task_instructions(s) + replace_of(c, "{max_llm_calls}"@, dec_of(max_llm_calls))
}

/// The fields of a step.
pub open spec fn action_fields() -> Seq<FieldSpec> {
    seq![
        FieldSpec::bare("variables_info"@, FieldType::Input).desc(
            "Metadata about the variables available in the REPL"@,
        ),
        FieldSpec::bare("repl_history"@, FieldType::Input).desc(
            "Previous REPL code executions and their outputs"@,
        ),
        FieldSpec::bare("iteration"@, FieldType::Input).desc(
            "Current iteration number (1-indexed) out of max_iterations"@,
        ),
        FieldSpec::bare("reasoning"@, FieldType::Output).desc(
            "Think step-by-step: what do you know? What remains? Plan your next action."@,
        ),
        FieldSpec::bare("code"@, FieldType::Output).desc(
            "Python code to execute. Use markdown code block format: ```python\n<code>\n```"@,
        ),
    ]
}

/// The signature of a step.
pub open spec fn action_sig(s: SigSpec, max_llm_calls: nat) -> SigSpec {
    SigSpec {
        instructions: action_instructions(s, max_llm_calls),
        fields: upsert_all(Seq::empty(), action_fields()),
    }
}

/// The instructions for outputs that are taken from the history.
pub open spec fn extract_instructions(s: SigSpec) -> Seq<char> {
    let task = task_instructions(s);
    (if task.len() > 0 {
        "The trajectory was generated with the following objective: \n"@ + task + "\n"@
    } else {
        Seq::empty()
    })
        + "Based on the REPL trajectory, extract the final outputs now.\n\nReview your trajectory to see what information you gathered and what values you computed, then provide the final outputs."@
}

/// The signature for outputs that are taken from the history.
pub open spec fn extract_sig(s: SigSpec) -> SigSpec {
    SigSpec {
        instructions: extract_instructions(s),
        fields: upsert_all(Seq::empty(), extract_fields_of(s)),
    }
}

fn dash_lines(names: &Vec<String>) -> (r: Vec<String>)
    ensures
        texts(r@) == dashed(texts(names@)),
{
    let ghost want = dashed(texts(names@));
    let mut r: Vec<String> = Vec::new();
    let mut i: usize = 0;
    while i < names.len()
        invariant
            i <= names.len(),
            want == dashed(texts(names@)),
            texts(r@) == want.take(i as int),
        decreases names.len() - i,
    {
        let mut line = "- ".to_string();
        line.append(names[i].as_str());
        push_text(&mut r, line);
        proof {
            assert(want.take(i + 1) =~= want.take(i as int).push(want[i as int]));
        }
        i = i + 1;
    }
    proof {
        assert(want.take(i as int) =~= want);
    }
    r
}

fn format_action_instructions(signature: &Signature, max_llm_calls: usize) -> (r: String)
    ensures
        r@ == action_instructions(signature@, max_llm_calls as nat),
{
    proof {
        reveal_strlit("{inputs}");
        reveal_strlit("{final_output_names}");
        reveal_strlit("{output_fields}");
        reveal_strlit("{max_llm_calls}");
    }
    let outputs = signature.output_names();
    let a = replace(
        "You are tasked with producing the following outputs given the inputs {inputs}:\n{output_fields}\n\nYou have access to a Python REPL environment. Write Python code and it will be executed. You will see the output, then write more code based on what you learned. This is an iterative process.\n\nAvailable:\n- Variables: {inputs} (your input data)\n- `llm_query(prompt)` - query a sub-LLM (~500K char capacity) for semantic analysis\n- `llm_query_batched(prompts)` - query multiple prompts concurrently (much faster for multiple queries)\n- `print()` - ALWAYS print to see results\n- `SUBMIT({final_output_names})` - submit final output when done\n- Standard libraries: re, json, collections, math, etc.\n\nIMPORTANT: This is ITERATIVE. Each code block you write will execute, you'll see the output, then you decide what to do next. Do NOT try to solve everything in one step.\n\n1. EXPLORE FIRST - Look at your data before processing it. Print samples, check types/lengths, understand the structure.\n2. ITERATE - Write small code snippets, observe outputs, then decide next steps. State persists between iterations.\n3. VERIFY BEFORE SUBMITTING - If results seem wrong (zeros, empty, unexpected), reconsider your approach.\n4. USE llm_query FOR SEMANTICS - String matching finds WHERE things are; llm_query understands WHAT things mean.\n5. MINIMIZE RETYPING (INPUTS & OUTPUTS) - When values are long, precise, or error-prone (IDs, numbers, code, quotes), re-access them via variables and parse/compute in code instead of retyping. Use small, targeted prints to sanity-check, but avoid manual copying when variables can carry the exact value.\n6. SUBMIT ONLY AFTER SEEING OUTPUTS - SUBMIT ends the current run immediately. If you need to inspect printed output, run it in one step, review the result, then call SUBMIT in a later step.\n\nYou have max {max_llm_calls} sub-LLM calls. When done, call SUBMIT() with your output.",
        "{inputs}",
        tick_list(&signature.input_names()).as_str(),
    );
    let b = replace(a.as_str(), "{final_output_names}", join(&outputs, ", ").as_str());
    let c = replace(b.as_str(), "{output_fields}", join(&dash_lines(&outputs), "\n").as_str());
    let d = replace(c.as_str(), "{max_llm_calls}", dec_size(max_llm_calls).as_str());
    let mut r = format_task_instructions(signature);
    r.append(d.as_str());
    r
}

fn format_task_instructions(signature: &Signature) -> (r: String)
    ensures
        r@ == task_instructions(signature@),
{
    let mut r = String::new();
    proof {
        assert(r@ =~= Seq::<char>::empty());
    }
    if !signature.instructions().is_empty() {
        r = signature.instructions().to_owned();
        r.append("\n\n");
    }
    r
}

/// The signatures of a task: that of a step, and that for outputs that are taken
/// from the history.
pub fn build_signatures(signature: &Signature, max_llm_calls: usize) -> (r: (Signature, Signature))
    ensures
        r.0@ == action_sig(signature@, max_llm_calls as nat),
        r.1@ == extract_sig(signature@),
{
    let instructions = format_action_instructions(signature, max_llm_calls);
    let mut fields: Vec<FieldDef> = Vec::new();
    push_field(
        &mut fields,
        input_field("variables_info").with_desc(
            "Metadata about the variables available in the REPL",
        ),
    );
    push_field(
        &mut fields,
        input_field("repl_history").with_desc("Previous REPL code executions and their outputs"),
    );
    push_field(
        &mut fields,
        input_field("iteration").with_desc(
            "Current iteration number (1-indexed) out of max_iterations",
        ),
    );
    push_field(
        &mut fields,
        output_field("reasoning").with_desc(
            "Think step-by-step: what do you know? What remains? Plan your next action.",
        ),
    );
    push_field(
        &mut fields,
        output_field("code").with_desc(
            "Python code to execute. Use markdown code block format: ```python\n<code>\n```",
        ),
    );
    proof {
        assert(field_list(fields@) =~= action_fields());
    }
    let action = Signature::new(fields, instructions.as_str());
    let task = format_task_instructions(signature);
    let mut text = String::new();
    if !task.as_str().is_empty() {
        text = around(
            "The trajectory was generated with the following objective: \n",
            task.as_str(),
            "\n",
        );
    }
    text.append(
        "Based on the REPL trajectory, extract the final outputs now.\n\nReview your trajectory to see what information you gathered and what values you computed, then provide the final outputs.",
    );
    let mut extract_fields: Vec<FieldDef> = Vec::new();
    push_field(
        &mut extract_fields,
        input_field("variables_info").with_desc(
            "Metadata about the variables available in the REPL",
        ),
    );
    push_field(
        &mut extract_fields,
        input_field("repl_history").with_desc("Your REPL interactions so far"),
    );
    let ghost first = field_list(extract_fields@);
    let outputs = signature.fields_copied(FieldType::Output);
    let ghost outs = field_list(outputs@);
    let mut i: usize = 0;
    while i < outputs.len()
        invariant
            i <= outputs.len(),
            outs == field_list(outputs@),
            field_list(extract_fields@) =~= first + outs.take(i as int),
        decreases outputs.len() - i,
    {
        push_field(&mut extract_fields, outputs[i].clone());
        proof {
            assert(outs.take(i + 1) =~= outs.take(i as int).push(outs[i as int]));
        }
        i = i + 1;
    }
    proof {
        assert(outs.take(i as int) =~= outs);
        assert(field_list(extract_fields@) =~= extract_fields_of(signature@));
    }
    (action, Signature::new(extract_fields, text.as_str()))
}

/// The fields for outputs that are taken from the history.
pub open spec fn extract_fields_of(s: SigSpec) -> Seq<FieldSpec> {
    seq![
        FieldSpec::bare("variables_info"@, FieldType::Input).desc(
            "Metadata about the variables available in the REPL"@,
        ),
        FieldSpec::bare("repl_history"@, FieldType::Input).desc(
            "Your REPL interactions so far"@,
        ),
    ] + s.outputs()
}

// ---------------------------------------------------------------------------
// Queries from code
// ---------------------------------------------------------------------------

/// How many queries code has made, and how many it may make.
#[derive(Debug)]
pub struct QueryBudget {
    used: usize,
    max: usize,
}

/// What a budget says.
pub struct BudgetSpec {
    pub used: nat,
    pub max: nat,
}

impl View for QueryBudget {
    type V = BudgetSpec;

    closed spec fn view(&self) -> BudgetSpec {
        BudgetSpec { used: self.used as nat, max: self.max as nat }
    }
}

/// What is said of queries beyond the budget.
pub open spec fn limit_message(used: nat, more: nat, max: nat) -> Seq<char> {
    "LLM call limit exceeded: "@ + dec_of(used) + " + "@ + dec_of(more) + " > "@ + dec_of(max)
        + ". Use Python code for aggregation instead of making more LLM calls."@
}

/// The text under a key of the arguments, or the empty text.
pub open spec fn arg_text(kwargs: Map<Seq<char>, JsonSpec>, key: Seq<char>) -> Seq<char> {
    if kwargs.contains_key(key) {
        match kwargs[key] {
            JsonSpec::Text(t) => t,
            _ => Seq::empty(),
        }
    } else {
        Seq::empty()
    }
}

/// The texts among items.
pub open spec fn texts_among(items: Seq<JsonSpec>) -> Seq<Seq<char>>
    decreases items.len(),
{
    if items.len() == 0 {
        Seq::empty()
    } else {
        match items.last() {
            JsonSpec::Text(t) => texts_among(items.drop_last()).push(t),
            _ => texts_among(items.drop_last()),
        }
    }
}

/// The prompts under a key of the arguments.
pub open spec fn arg_texts(kwargs: Map<Seq<char>, JsonSpec>, key: Seq<char>) -> Seq<Seq<char>> {
    if kwargs.contains_key(key) {
        match kwargs[key] {
            JsonSpec::Array(items) => texts_among(items),
            _ => Seq::empty(),
        }
    } else {
        Seq::empty()
    }
}

fn collect_texts(items: &Vec<Json>) -> (r: Vec<String>)
    ensures
        texts(r@) == texts_among(json_list(items@)),
{
    let ghost all = json_list(items@);
    let mut r: Vec<String> = Vec::new();
    let mut i: usize = 0;
    proof {
        lemma_json_list(items@);
        assert(all.take(0) =~= Seq::<JsonSpec>::empty());
        assert(texts(r@) =~= Seq::<Seq<char>>::empty());
    }
    while i < items.len()
        invariant
            i <= items.len(),
            all.len() == items@.len(),
            forall|k: int| 0 <= k < items@.len() ==> #[trigger] all[k] == items@[k]@,
            texts(r@) == texts_among(all.take(i as int)),
        decreases items.len() - i,
    {
        proof {
            assert(all.take(i + 1).drop_last() =~= all.take(i as int));
            assert(all.take(i + 1).last() == items@[i as int]@);
        }
        if let Json::Text(t) = &items[i] {
            push_text(&mut r, t.clone());
        }
        i = i + 1;
    }
    proof {
        assert(all.take(i as int) =~= all);
    }
    r
}

fn limit_text(used: usize, more: usize, max: usize) -> (r: String)
    ensures
        r@ == limit_message(used as nat, more as nat, max as nat),
{
    let mut m = "LLM call limit exceeded: ".to_string();
    m.append(dec_size(used).as_str());
    m.append(" + ");
    m.append(dec_size(more).as_str());
    m.append(" > ");
    m.append(dec_size(max).as_str());
    m.append(". Use Python code for aggregation instead of making more LLM calls.");
    m
}

impl QueryBudget {
    /// No more queries are made than may be.
    #[verifier::type_invariant]
    pub closed spec fn wf(self) -> bool {
        self.used <= self.max
    }

    /// No more queries are ever made than may be.
    pub proof fn law_queries_stay_within_the_budget(self)
        requires
            self.wf(),
        ensures
            self@.used <= self@.max,
    {
    }

    /// A budget of which nothing is used.
    pub fn new(max: usize) -> (r: Self)
        ensures
            r@ == (BudgetSpec { used: 0, max: max as nat }),
    {
        QueryBudget { used: 0, max }
    }

    /// Takes a query: the prompt, or why there is none to be made.
    pub fn query(&mut self, kwargs: &StrMap<Json>) -> (r: std::result::Result<String, String>)
        ensures
            ({
                let prompt = arg_text(json_object(*kwargs), "prompt"@);
                let b = old(self)@;
                if prompt.len() == 0 {
                    &&& r matches Err(e) && e@ == "prompt cannot be empty"@
                    &&& final(self)@ == b
                } else if b.used + 1 > b.max {
                    &&& r matches Err(e) && e@ == limit_message(b.used, 1, b.max)
                    &&& final(self)@ == b
                } else {
                    &&& r matches Ok(p) && p@ == prompt
                    &&& final(self)@ == (BudgetSpec { used: b.used + 1, ..b })
                }
            }),
    {
        proof {
            use_type_invariant(kwargs);
            use_type_invariant(&*self);
            lemma_json_object(*kwargs);
        }
        let prompt: &str = match kwargs.get("prompt") {
            Some(Json::Text(t)) => t.as_str(),
            _ => "",
        };
        proof {
            reveal_strlit("");
            assert(""@ =~= Seq::<char>::empty());
        }
        if prompt.is_empty() {
            return Err("prompt cannot be empty".to_string());
        }
        if self.used >= self.max {
            return Err(limit_text(self.used, 1, self.max));
        }
        self.used = self.used + 1;
        Ok(prompt.to_owned())
    }

    /// Takes several queries: the prompts, or why there are none to be made. Where
    /// no prompt is given, none is made.
    pub fn query_batched(&mut self, kwargs: &StrMap<Json>) -> (r: std::result::Result<
        Vec<String>,
        String,
    >)
        ensures
            ({
                let prompts = arg_texts(json_object(*kwargs), "prompts"@);
                let b = old(self)@;
                if b.used + prompts.len() > b.max && prompts.len() > 0 {
                    &&& r matches Err(e) && e@ == limit_message(b.used, prompts.len(), b.max)
                    &&& final(self)@ == b
                } else {
                    &&& r matches Ok(p) && texts(p@) == prompts
                    &&& final(self)@ == (BudgetSpec { used: b.used + prompts.len(), ..b })
                }
            }),
    {
        proof {
            use_type_invariant(kwargs);
            use_type_invariant(&*self);
            lemma_json_object(*kwargs);
        }
        let prompts: Vec<String> = match kwargs.get("prompts") {
            Some(Json::Array(items)) => collect_texts(items),
            _ => Vec::new(),
        };
        proof {
            assert(texts(prompts@) =~= arg_texts(json_object(*kwargs), "prompts"@));
        }
        let n: usize = prompts.len();
        if n == 0 {
            return Ok(prompts);
        }
        if n > self.max - self.used {
            return Err(limit_text(self.used, n, self.max));
        }
        self.used = self.used + n;
        Ok(prompts)
    }
}

/// The model that queries go to: the one that was given for them, or else that of
/// the settings.
pub fn query_lm<'a, L>(sub_lm: &'a Option<L>, settings: &'a Option<L>) -> (r: std::result::Result<
    &'a L,
    String,
>)
    ensures
        match (sub_lm, settings) {
            (Some(x), _) => r matches Ok(y) && *y == *x,
            (None, Some(x)) => r matches Ok(y) && *y == *x,
            (None, None) => r matches Err(e) && e@
                == "No LM configured. Use configure() or pass sub_lm to RLM."@,
        },
{
    match sub_lm {
        Some(x) => Ok(x),
        None => match settings {
            Some(x) => Ok(x),
            None => Err("No LM configured. Use configure() or pass sub_lm to RLM.".to_string()),
        },
    }
}

/// The messages of a query.
pub fn query_messages(prompt: &str) -> (r: Vec<Message>)
    ensures
        message_list(r@) == seq![MessageSpec::user(prompt@)],
{
    let mut v: Vec<Message> = Vec::new();
    v.push(Message::user(prompt));
    proof {
        assert(message_list(v@) =~= seq![MessageSpec::user(prompt@)]);
    }
    v
}

/// The text of the first reply, or the empty text.
pub open spec fn first_text(replies: Seq<ResponseSpec>) -> Seq<char> {
    if replies.len() > 0 {
        replies[0].text
    } else {
        Seq::empty()
    }
}

/// What a query gives to code.
pub fn query_answer(replies: &Vec<LMResponse>) -> (r: String)
    ensures
        r@ == first_text(response_list(replies@)),
{
    if replies.len() > 0 {
        replies[0].text.clone()
    } else {
        let r = String::new();
        proof {
            assert(r@ =~= Seq::<char>::empty());
        }
        r
    }
}

// ---------------------------------------------------------------------------
// Final outputs
// ---------------------------------------------------------------------------

/// The names that a map does not have.
pub open spec fn missing_names<V>(names: Seq<Seq<char>>, m: Map<Seq<char>, V>) -> Seq<Seq<char>>
    decreases names.len(),
{
    if names.len() == 0 {
        Seq::empty()
    } else if m.contains_key(names.last()) {
        missing_names(names.drop_last(), m)
    } else {
        missing_names(names.drop_last(), m).push(names.last())
    }
}

/// What a value is called that is no object.
pub open spec fn kind_of(j: JsonSpec) -> Seq<char> {
    match j {
        JsonSpec::Array(_) => "array"@,
        JsonSpec::Text(_) => "string"@,
        _ => "non-dict"@,
    }
}

/// The outputs that were handed in, or what is wrong with them.
pub open spec fn final_outcome(j: JsonSpec, names: Seq<Seq<char>>) -> std::result::Result<
    Map<Seq<char>, JsonSpec>,
    Seq<char>,
> {
    match j {
        JsonSpec::Object(m) => {
            let missing = missing_names(names, m);
            if missing.len() > 0 {
                Err(
                    "[Error] Missing output fields: "@ + join_of(sorted_of(missing), ", "@)
                        + ". Use SUBMIT("@ + join_of(names, ", "@) + ")"@,
                )
            } else {
                Ok(m.restrict(names.to_set()))
            }
        },
        _ => Err(
            "[Error] FINAL returned "@ + kind_of(j) + ", expected dict with fields: "@ + join_of(
                names,
                ", "@,
            ),
        ),
    }
}

proof fn lemma_none_missing<V>(names: Seq<Seq<char>>, m: Map<Seq<char>, V>)
    ensures
        missing_names(names, m).len() == 0 ==> forall|i: int|
            0 <= i < names.len() ==> m.contains_key(#[trigger] names[i]),
    decreases names.len(),
{
    if names.len() > 0 {
        lemma_none_missing(names.drop_last(), m);
        assert forall|i: int|
            0 <= i < names.len() && missing_names(names, m).len()
                == 0 implies m.contains_key(#[trigger] names[i]) by {
            if i < names.len() - 1 {
                assert(names.drop_last()[i] == names[i]);
            }
        }
    }
}

fn missing_of(names: &Vec<String>, m: &StrMap<Json>) -> (r: Vec<String>)
    ensures
        texts(r@) == missing_names(texts(names@), json_object(*m)),
{
    let ghost all = texts(names@);
    let ghost obj = json_object(*m);
    let mut r: Vec<String> = Vec::new();
    let mut i: usize = 0;
    proof {
        use_type_invariant(m);
        lemma_json_object(*m);
        assert(all.take(0) =~= Seq::<Seq<char>>::empty());
        assert(texts(r@) =~= Seq::<Seq<char>>::empty());
    }
    while i < names.len()
        invariant
            i <= names.len(),
            all == texts(names@),
            obj.dom() == m@.dom(),
            texts(r@) == missing_names(all.take(i as int), obj),
        decreases names.len() - i,
    {
        proof {
            assert(all.take(i + 1).drop_last() =~= all.take(i as int));
            assert(all.take(i + 1).last() == names@[i as int]@);
        }
        if !m.contains_key(names[i].as_str()) {
            push_text(&mut r, names[i].clone());
        }
        i = i + 1;
    }
    proof {
        assert(all.take(i as int) =~= all);
    }
    r
}

fn pick_members(m: &StrMap<Json>, names: &Vec<String>) -> (r: StrMap<Json>)
    requires
        forall|i: int|
            0 <= i < names@.len() ==> json_object(*m).contains_key((#[trigger] names@[i])@),
    ensures
        json_object(r) == json_object(*m).restrict(texts(names@).to_set()),
{
    let ghost all = texts(names@);
    let ghost obj = json_object(*m);
    let mut r = new_object();
    let mut i: usize = 0;
    proof {
        use_type_invariant(m);
        lemma_json_object(*m);
        assert(obj.restrict(all.take(0).to_set()) =~= empty_object());
    }
    while i < names.len()
        invariant
            i <= names.len(),
            all == texts(names@),
            obj.dom() == m@.dom(),
            forall|k: Seq<char>| m@.contains_key(k) ==> #[trigger] obj[k] == m@[k]@,
            forall|k: int| 0 <= k < names@.len() ==> obj.contains_key((#[trigger] names@[k])@),
            json_object(r) == obj.restrict(all.take(i as int).to_set()),
        decreases names.len() - i,
    {
        let ghost name = names@[i as int]@;
        proof {
            assert(obj.contains_key(names@[i as int]@));
        }
        if let Some(v) = m.get(names[i].as_str()) {
            put(&mut r, names[i].as_str(), v.copy());
        }
        proof {
            let a = all.take(i as int);
            assert(all.take(i + 1) =~= a.push(name));
            a.lemma_push_to_set_commute(name);
            assert(obj[name] == m@[name]@);
            assert(json_object(r) =~= obj.restrict(a.to_set().insert(name)));
        }
        i = i + 1;
    }
    proof {
        assert(all.take(i as int) =~= all);
    }
    r
}

/// The outputs that were handed in, or what is wrong with them.
pub fn process_final_output(result: &FinalOutput, output_field_names: &Vec<String>) -> (r: (
    Option<StrMap<Json>>,
    Option<String>,
))
    ensures
        match final_outcome(result.output@, texts(output_field_names@)) {
            Ok(m) => r.1 is None && (r.0 matches Some(x) && json_object(x) == m),
            Err(e) => r.0 is None && (r.1 matches Some(x) && x@ == e),
        },
{
    match &result.output {
        Json::Object(m) => {
            let missing = missing_of(output_field_names, m);
            if missing.len() > 0 {
                let mut e = "[Error] Missing output fields: ".to_string();
                e.append(join(&sort_texts(&missing), ", ").as_str());
                e.append(". Use SUBMIT(");
                e.append(join(output_field_names, ", ").as_str());
                e.append(")");
                return (None, Some(e));
            }
            proof {
                let all = texts(output_field_names@);
                lemma_none_missing(all, json_object(*m));
                assert forall|i: int|
                    0 <= i < output_field_names@.len() implies json_object(*m).contains_key(
                    (#[trigger] output_field_names@[i])@,
                ) by {
                    assert(all[i] == output_field_names@[i]@);
                }
            }
            (Some(pick_members(m, output_field_names)), None)
        },
        other => {
            let kind = match other {
                Json::Array(_) => "array",
                Json::Text(_) => "string",
                _ => "non-dict",
            };
            let mut e = "[Error] FINAL returned ".to_string();
            e.append(kind);
            e.append(", expected dict with fields: ");
            e.append(join(output_field_names, ", ").as_str());
            (None, Some(e))
        },
    }
}

// ---------------------------------------------------------------------------
// The module
// ---------------------------------------------------------------------------

/// A module that lets a model explore its inputs by code.
#[derive(Debug)]
pub struct RLM {
    pub signature: Signature,
    pub max_iterations: usize,
    pub max_llm_calls: usize,
    pub max_output_chars: usize,
    pub verbose: bool,
    pub generate_action: Predict,
    pub extract: Predict,
}

/// A predictor for a signature, as it is when it is new.
pub open spec fn fresh_predict(s: SigSpec) -> PredictSpec {
    PredictSpec { signature: s, demos: Seq::empty(), train: false }
}

/// What a field's description says; nothing where there is none.
pub open spec fn desc_in(s: SigSpec, name: Seq<char>) -> Seq<char> {
    match name_index(s.fields, name) {
        Some(i) => match s.fields[i].description {
            Some(d) => d,
            None => Seq::empty(),
        },
        None => Seq::empty(),
    }
}

/// The variables of a session: one for each field of the inputs.
pub open spec fn built_variables(v: Seq<REPLVariable>, s: SigSpec, args: ExampleSpec) -> bool {
    &&& v.len() == args.keys.len()
    &&& forall|i: int|
        0 <= i < v.len() ==> describes(
            #[trigger] v[i],
            args.keys[i],
            json_of(args.store[args.keys[i]]),
            desc_in(s, args.keys[i]),
            Seq::empty(),
            500,
        )
}

/// The previews of all fields can be cut.
pub open spec fn can_preview(args: ExampleSpec) -> bool {
    forall|i: int|
        0 <= i < args.keys.len() ==> can_cut(
            preview_text(json_of(args.store[#[trigger] args.keys[i]])),
            500,
        )
}

/// The text that shows variables.
pub open spec fn variables_text(v: Seq<REPLVariable>) -> Seq<char> {
    join_of(v.map_values(|x: REPLVariable| join_of(variable_lines(x), "\n"@)), "\n\n"@)
}

/// The output of a step as it is kept in the history.
pub open spec fn kept_output(output: Seq<char>, max: nat) -> Seq<char> {
    if output.len() == 0 {
        "(no output - did you forget to print?)"@
    } else if byte_len_of(output) > max {
        byte_prefix_of(output, max as int) + "\n... (truncated)"@
    } else {
        output
    }
}

/// The inputs of a step.
pub open spec fn action_inputs(
    v: Seq<REPLVariable>,
    h: Seq<EntrySpec>,
    iteration: nat,
    max: nat,
) -> ExampleSpec {
    ExampleSpec::empty().with("variables_info"@, ValueSpec::Text(variables_text(v))).with(
        "repl_history"@,
        ValueSpec::Text(history_text(h, 5000)),
    ).with("iteration"@, ValueSpec::Text(dec_of(iteration + 1) + "/"@ + dec_of(max)))
}

/// The inputs for outputs that are taken from the history.
pub open spec fn extract_inputs(v: Seq<REPLVariable>, h: Seq<EntrySpec>) -> ExampleSpec {
    ExampleSpec::empty().with("variables_info"@, ValueSpec::Text(variables_text(v))).with(
        "repl_history"@,
        ValueSpec::Text(history_text(h, 5000)),
    )
}

/// A history in JSON.
pub open spec fn trajectory_json(h: Seq<EntrySpec>) -> JsonSpec {
    JsonSpec::Array(h.map_values(|e: EntrySpec| entry_json(e)))
}

/// `p` has the outputs `m`, the history and the reasoning.
pub open spec fn is_final(
    p: PredictionSpec,
    m: Map<Seq<char>, JsonSpec>,
    h: Seq<EntrySpec>,
    reasoning: Seq<char>,
) -> bool {
    &&& p == PredictionSpec::of_example(p.example)
    &&& p.example.input_keys is None
    &&& p.example.demos.len() == 0
    &&& p.example.store.dom() == m.dom().insert("trajectory"@).insert("final_reasoning"@)
    &&& p.example.store["final_reasoning"@] == ValueSpec::Text(reasoning)
    &&& reads_as(p.example.store["trajectory"@], trajectory_json(h))
    &&& forall|k: Seq<char>| #[trigger]
        m.contains_key(k) && k != "trajectory"@ && k != "final_reasoning"@ ==> reads_as(
            p.example.store[k],
            m[k],
        )
}

/// `p` has those of the named fields that `found` has, the history, and a note
/// that its outputs were taken from the history.
pub open spec fn is_extracted(
    p: PredictionSpec,
    found: ExampleSpec,
    names: Seq<Seq<char>>,
    h: Seq<EntrySpec>,
) -> bool {
    &&& p == PredictionSpec::of_example(p.example)
    &&& p.example.input_keys is None
    &&& p.example.demos.len() == 0
    &&& p.example.store.dom() == names.to_set().intersect(found.store.dom()).insert(
        "trajectory"@,
    ).insert("final_reasoning"@)
    &&& p.example.store["final_reasoning"@] == ValueSpec::Text("Extract forced final output"@)
    &&& reads_as(p.example.store["trajectory"@], trajectory_json(h))
    &&& forall|k: Seq<char>| #[trigger]
        names.contains(k) && found.store.contains_key(k) && k != "trajectory"@ && k
            != "final_reasoning"@ ==> p.example.store[k] == found.store[k]
}

/// What running code gave, as text: what was printed, or the error.
pub open spec fn run_text(
    r: std::result::Result<ExecutionResult, CodeInterpreterError>,
) -> Option<Seq<char>> {
    match r {
        Err(e) => Some("[Error] "@ + e.message@),
        Ok(ExecutionResult::Output(Some(t))) => Some(t@),
        Ok(ExecutionResult::Output(None)) => Some(Seq::empty()),
        Ok(ExecutionResult::Final(_)) => None,
    }
}

/// What running code gave can be kept in the history.
pub open spec fn can_keep(
    r: std::result::Result<ExecutionResult, CodeInterpreterError>,
    max: nat,
) -> bool {
    match run_text(r) {
        Some(t) => can_cut(t, max),
        None => true,
    }
}

/// A run of the module.
#[derive(Debug)]
pub struct RlmRun {
    pub variables: Vec<REPLVariable>,
    pub outputs: Vec<String>,
    pub history: REPLHistory,
    pub iteration: usize,
    pub code: String,
    pub reasoning: String,
}

/// What a run asks for next.
#[derive(Debug)]
pub enum RlmStep {
    /// A call of the predictor for a step, with these inputs.
    Act(Example),
    /// A call of the predictor that takes the outputs from the history, with these
    /// inputs.
    Extract(Example),
}

fn show_variables(v: &Vec<REPLVariable>) -> (r: String)
    ensures
        r@ == variables_text(v@),
{
    let ghost want = v@.map_values(|x: REPLVariable| join_of(variable_lines(x), "\n"@));
    let mut parts: Vec<String> = Vec::new();
    let mut i: usize = 0;
    proof {
        assert(texts(parts@) =~= want.take(0));
    }
    while i < v.len()
        invariant
            i <= v.len(),
            want == v@.map_values(|x: REPLVariable| join_of(variable_lines(x), "\n"@)),
            texts(parts@) == want.take(i as int),
        decreases v.len() - i,
    {
        push_text(&mut parts, format_repl_variable(&v[i]));
        proof {
            assert(want.take(i + 1) =~= want.take(i as int).push(want[i as int]));
        }
        i = i + 1;
    }
    proof {
        assert(want.take(i as int) =~= want);
    }
    join(&parts, "\n\n")
}

/// The prediction with the outputs `m`, the history and the reasoning.
fn final_prediction(m: &StrMap<Json>, history: &REPLHistory, reasoning: &str) -> (r: Prediction)
    ensures
        is_final(r@, json_object(*m), history@, reasoning@),
{
    proof {
        reveal_strlit("trajectory");
        reveal_strlit("final_reasoning");
        assert("trajectory"@.len() == 10 && "final_reasoning"@.len() == 15);
    }
    let mut fields = values_from_json(m);
    let ghost first = value_map(fields);
    let trajectory = Value::from_json(&history.to_json());
    fields.insert("trajectory".to_string(), trajectory);
    fields.insert("final_reasoning".to_string(), Value::String(reasoning.to_owned()));
    proof {
        let store = value_map(fields);
        assert(store.dom() =~= json_object(*m).dom().insert("trajectory"@).insert(
            "final_reasoning"@,
        ));
        assert forall|k: Seq<char>| #[trigger]
            json_object(*m).contains_key(k) && k != "trajectory"@ && k
                != "final_reasoning"@ implies reads_as(store[k], json_object(*m)[k]) by {
            assert(store[k] == first[k]);
        }
    }
    Prediction::from_example(Example::from_map(fields))
}

impl RLM {
    /// A module for a task. Where they are not given, there are 20 steps, 50
    /// queries and 100000 characters of output.
    pub fn new(
        signature: Signature,
        max_iterations: Option<usize>,
        max_llm_calls: Option<usize>,
        max_output_chars: Option<usize>,
        verbose: bool,
    ) -> (r: Result<Self>)
        ensures
            r matches Ok(m) && m.signature == signature && m.max_iterations == (
            match max_iterations {
                Some(n) => n,
                None => 20,
            }) && m.max_llm_calls == (match max_llm_calls {
                Some(n) => n,
                None => 50,
            }) && m.max_output_chars == (match max_output_chars {
                Some(n) => n,
                None => 100_000,
            }) && m.verbose == verbose && m.generate_action@ == fresh_predict(
                action_sig(signature@, m.max_llm_calls as nat),
            ) && m.extract@ == fresh_predict(extract_sig(signature@)),
    {
        let calls: usize = match max_llm_calls {
            Some(n) => n,
            None => 50,
        };
        let (action, extract) = build_signatures(&signature, calls);
        Ok(
            RLM {
                signature,
                max_iterations: match max_iterations {
                    Some(n) => n,
                    None => 20,
                },
                max_llm_calls: calls,
                max_output_chars: match max_output_chars {
                    Some(n) => n,
                    None => 100_000,
                },
                verbose,
                generate_action: Predict::new(action),
                extract: Predict::new(extract),
            },
        )
    }

    /// Checks that the inputs of the task are there.
    pub fn validate_inputs(&self, args: &Example) -> (r: Result<()>)
        ensures
            ({
                let missing = missing_names(names(self.signature@.inputs()), args@.store);
                if missing.len() > 0 {
                    r matches Err(e) && is_other_error(
                        e,
                        "Missing required inputs: "@ + join_of(sorted_of(missing), ", "@),
                    )
                } else {
                    r is Ok
                }
            }),
    {
        let inputs = self.signature.input_names();
        let ghost all = texts(inputs@);
        let mut missing: Vec<String> = Vec::new();
        let mut i: usize = 0;
        proof {
            assert(all.take(0) =~= Seq::<Seq<char>>::empty());
            assert(texts(missing@) =~= Seq::<Seq<char>>::empty());
        }
        while i < inputs.len()
            invariant
                i <= inputs.len(),
                all == texts(inputs@),
                texts(missing@) == missing_names(all.take(i as int), args@.store),
            decreases inputs.len() - i,
        {
            proof {
                assert(all.take(i + 1).drop_last() =~= all.take(i as int));
                assert(all.take(i + 1).last() == inputs@[i as int]@);
            }
            if !args.has(inputs[i].as_str()) {
                push_text(&mut missing, inputs[i].clone());
            }
            i = i + 1;
        }
        proof {
            assert(all.take(i as int) =~= all);
        }
        if missing.len() > 0 {
            let mut m = "Missing required inputs: ".to_string();
            m.append(join(&sort_texts(&missing), ", ").as_str());
            return Err(DspyError::Other(m));
        }
        Ok(())
    }

    /// The variables of a session, unless a preview would be cut within a
    /// character.
    pub fn try_build_variables(&self, args: &Example) -> (r: Option<Vec<REPLVariable>>)
        ensures
            match r {
                Some(v) => can_preview(args@) && built_variables(v@, self.signature@, args@),
                None => !can_preview(args@),
            },
    {
        let map = args.to_map();
        let n: usize = map.len();
        let ghost keys = args@.keys;
        let mut v: Vec<REPLVariable> = Vec::new();
        let mut i: usize = 0;
        proof {
            use_type_invariant(map);
            map.lemma_shape();
        }
        while i < n
            invariant
                n == keys.len(),
                i <= n,
                keys == args@.keys,
                map.keys() == keys,
                value_map(*map) == args@.store,
                forall|k: int| 0 <= k < n ==> map@.contains_key(#[trigger] keys[k]),
                v@.len() == i,
                forall|k: int|
                    0 <= k < i ==> can_cut(
                        preview_text(json_of(args@.store[#[trigger] keys[k]])),
                        500,
                    ),
                forall|k: int|
                    0 <= k < i ==> describes(
                        #[trigger] v@[k],
                        keys[k],
                        json_of(args@.store[keys[k]]),
                        desc_in(self.signature@, keys[k]),
                        Seq::empty(),
                        500,
                    ),
            decreases n - i,
        {
            let name = map.key_at(i);
            let json = map.value_at(i).to_json();
            let desc: Option<&str> = match self.signature.get_field(name.as_str()) {
                Some(f) => match &f.description {
                    Some(d) => Some(d.as_str()),
                    None => None,
                },
                None => None,
            };
            proof {
                assert(map@.contains_key(keys[i as int]));
                assert(args@.store[keys[i as int]] == map@[keys[i as int]]@);
                assert(text_or_empty(desc) == desc_in(self.signature@, name@));
            }
            match try_create_repl_variable(name.as_str(), &json, desc, None, None) {
                Some(x) => {
                    v.push(x);
                },
                None => {
                    proof {
                        assert(!can_cut(
                            preview_text(json_of(args@.store[keys[i as int]])),
                            500,
                        ));
                    }
                    return None;
                },
            }
            i = i + 1;
        }
        Some(v)
    }

    /// The output of a step as it is kept in the history.
    pub fn format_output(&self, output: &str) -> (r: String)
        requires
            can_cut(output@, self.max_output_chars as nat),
        ensures
            r@ == kept_output(output@, self.max_output_chars as nat),
    {
        if output.is_empty() {
            return "(no output - did you forget to print?)".to_string();
        }
        if byte_len(output) > self.max_output_chars {
            let mut r = byte_prefix(output, self.max_output_chars);
            r.append("\n... (truncated)");
            r
        } else {
            output.to_owned()
        }
    }

    /// Begins a run on inputs whose variables are given.
    pub fn begin(&self, args: &Example, variables: Vec<REPLVariable>) -> (r: Result<RlmRun>)
        ensures
            ({
                let missing = missing_names(names(self.signature@.inputs()), args@.store);
                match r {
                    Ok(run) => missing.len() == 0 && run.variables == variables && texts(
                        run.outputs@,
                    ) == names(self.signature@.outputs()) && run.history@.len() == 0
                        && run.iteration == 0,
                    Err(e) => missing.len() > 0 && is_other_error(
                        e,
                        "Missing required inputs: "@ + join_of(sorted_of(missing), ", "@),
                    ),
                }
            }),
    {
        match self.validate_inputs(args) {
            Ok(_) => Ok(
                RlmRun {
                    variables,
                    outputs: self.signature.output_names(),
                    history: REPLHistory::new(),
                    iteration: 0,
                    code: String::new(),
                    reasoning: String::new(),
                },
            ),
            Err(e) => Err(e),
        }
    }

    /// What a run asks for next: another step as long as there may be one, and
    /// then the outputs from the history.
    pub fn next(&self, run: &RlmRun) -> (r: RlmStep)
        requires
            all_can_cut(run.history@, 5000),
        ensures
            if run.iteration < self.max_iterations {
                r matches RlmStep::Act(e) && e@ == action_inputs(
                    run.variables@,
                    run.history@,
                    run.iteration as nat,
                    self.max_iterations as nat,
                )
            } else {
                r matches RlmStep::Extract(e) && e@ == extract_inputs(
                    run.variables@,
                    run.history@,
                )
            },
    {
        let info = show_variables(&run.variables);
        let history = run.history.format(None);
        let inputs = Example::new().field("variables_info", info).field("repl_history", history);
        if run.iteration < self.max_iterations {
            let mut count = dec_size(run.iteration + 1);
            count.append("/");
            count.append(dec_size(self.max_iterations).as_str());
            RlmStep::Act(inputs.field("iteration", count))
        } else {
            RlmStep::Extract(inputs)
        }
    }

    /// Takes the code and the reasoning of a step.
    pub fn on_action(&self, run: &mut RlmRun, action: &Prediction)
        ensures
            final(run).code@ == without_fences(field_text(action@.example, "code"@)),
            final(run).reasoning@ == field_text(action@.example, "reasoning"@),
            final(run).variables == old(run).variables,
            final(run).outputs == old(run).outputs,
            final(run).history == old(run).history,
            final(run).iteration == old(run).iteration,
    {
        run.code = strip_code_fences(action.text("code").as_str());
        run.reasoning = action.text("reasoning");
    }

    /// Whether what running code gave can be kept in the history.
    pub fn can_process(
        &self,
        result: &std::result::Result<ExecutionResult, CodeInterpreterError>,
    ) -> (r: bool)
        ensures
            r == can_keep(*result, self.max_output_chars as nat),
    {
        proof {
            reveal_strlit("");
            assert(""@ =~= Seq::<char>::empty());
        }
        match result {
            Ok(ExecutionResult::Output(Some(t))) => can_cut_at(t.as_str(), self.max_output_chars),
            Ok(ExecutionResult::Output(None)) => can_cut_at("", self.max_output_chars),
            Ok(ExecutionResult::Final(_)) => true,
            Err(e) => {
                let mut t = "[Error] ".to_string();
                t.append(e.message.as_str());
                can_cut_at(t.as_str(), self.max_output_chars)
            },
        }
    }

    /// Takes what running the code of a step gave: outputs that are complete end
    /// the run, and anything else goes into the history.
    pub fn process_execution_result(
        &self,
        run: &mut RlmRun,
        result: std::result::Result<ExecutionResult, CodeInterpreterError>,
    ) -> (r: Option<Prediction>)
        requires
            old(run).iteration < self.max_iterations,
            can_keep(result, self.max_output_chars as nat),
        ensures
            final(run).variables == old(run).variables,
            final(run).outputs == old(run).outputs,
            final(run).iteration == old(run).iteration + 1,
            ({
                let entry = |output: Seq<char>|
                    EntrySpec {
                        reasoning: old(run).reasoning@,
                        code: old(run).code@,
                        output,
                    };
                match result {
                    Ok(ExecutionResult::Final(f)) => match final_outcome(
                        f.output@,
                        texts(old(run).outputs@),
                    ) {
                        Ok(m) => {
                            let h = old(run).history@.push(
                                entry("FINAL: "@ + printed_json(JsonSpec::Object(m))),
                            );
                            &&& final(run).history@ == h
                            &&& r matches Some(p) && is_final(p@, m, h, old(run).reasoning@)
                        },
                        Err(e) => {
                            &&& r is None
                            &&& final(run).history@ == old(run).history@.push(entry(e))
                        },
                    },
                    _ => {
                        &&& r is None
                        &&& final(run).history@ == old(run).history@.push(
                            entry(
                                kept_output(
                                    run_text(result).unwrap(),
                                    self.max_output_chars as nat,
                                ),
                            ),
                        )
                    },
                }
            }),
    {
        let mut done: Option<Prediction> = None;
        let history = match result {
            Ok(ExecutionResult::Final(f)) => {
                match process_final_output(&f, &run.outputs) {
                    (Some(m), _) => {
                        let shown = Json::Object(copy_object(&m)).to_text();
                        let mut output = "FINAL: ".to_string();
                        output.append(shown.as_str());
                        let h = run.history.append(
                            run.reasoning.as_str(),
                            run.code.as_str(),
                            output.as_str(),
                        );
                        done = Some(final_prediction(&m, &h, run.reasoning.as_str()));
                        h
                    },
                    (None, Some(e)) => run.history.append(
                        run.reasoning.as_str(),
                        run.code.as_str(),
                        e.as_str(),
                    ),
                    (None, None) => run.history.clone(),
                }
            },
            Ok(ExecutionResult::Output(o)) => {
                let text = match o {
                    Some(t) => t,
                    None => String::new(),
                };
                proof {
                    if o is None {
                        assert(text@ =~= Seq::<char>::empty());
                    }
                }
                run.history.append(
                    run.reasoning.as_str(),
                    run.code.as_str(),
                    self.format_output(text.as_str()).as_str(),
                )
            },
            Err(e) => {
                let mut text = "[Error] ".to_string();
                text.append(e.message.as_str());
                run.history.append(
                    run.reasoning.as_str(),
                    run.code.as_str(),
                    self.format_output(text.as_str()).as_str(),
                )
            },
        };
        run.history = history;
        run.iteration = run.iteration + 1;
        done
    }

    /// The prediction with the outputs that were taken from the history.
    pub fn extract_fallback(&self, run: &RlmRun, found: &Prediction) -> (r: Prediction)
        ensures
            is_extracted(r@, found@.example, texts(run.outputs@), run.history@),
    {
        proof {
            reveal_strlit("trajectory");
            reveal_strlit("final_reasoning");
            assert("trajectory"@.len() == 10 && "final_reasoning"@.len() == 15);
        }
        let ghost all = texts(run.outputs@);
        let ghost store = found@.example.store;
        let mut fields: StrMap<Value> = StrMap::new();
        let mut i: usize = 0;
        proof {
            assert(value_map(fields).dom() =~= all.take(0).to_set().intersect(store.dom()));
        }
        while i < run.outputs.len()
            invariant
                i <= run.outputs.len(),
                all == texts(run.outputs@),
                store == found@.example.store,
                value_map(fields).dom() == all.take(i as int).to_set().intersect(store.dom()),
                forall|k: Seq<char>| #[trigger]
                    value_map(fields).contains_key(k) ==> value_map(fields)[k] == store[k],
            decreases run.outputs.len() - i,
        {
            let ghost name = run.outputs@[i as int]@;
            let ghost before = value_map(fields);
            proof {
                let a = all.take(i as int);
                assert(all.take(i + 1) =~= a.push(name));
                a.lemma_push_to_set_commute(name);
            }
            match found.get(run.outputs[i].as_str()) {
                Some(v) => {
                    fields.insert(run.outputs[i].clone(), v.copy());
                    proof {
                        assert(value_map(fields).dom() =~= before.dom().insert(name));
                        assert(before.dom().insert(name) =~= all.take(
                            i as int,
                        ).to_set().insert(name).intersect(store.dom()));
                        assert(value_map(fields).dom() =~= all.take(
                            i + 1,
                        ).to_set().intersect(store.dom()));
                        assert forall|k: Seq<char>| #[trigger]
                            value_map(fields).contains_key(k) implies value_map(fields)[k]
                            == store[k] by {
                            if k != name {
                                assert(before.contains_key(k));
                            }
                        }
                    }
                },
                None => {
                    proof {
                        assert(value_map(fields).dom() =~= all.take(
                            i + 1,
                        ).to_set().intersect(store.dom()));
                    }
                },
            }
            i = i + 1;
        }
        proof {
            assert(all.take(i as int) =~= all);
        }
        let ghost first = value_map(fields);
        fields.insert("trajectory".to_string(), Value::from_json(&run.history.to_json()));
        fields.insert(
            "final_reasoning".to_string(),
            Value::String("Extract forced final output".to_string()),
        );
        proof {
            let s = value_map(fields);
            assert(s.dom() =~= first.dom().insert("trajectory"@).insert("final_reasoning"@));
            assert forall|k: Seq<char>| #[trigger]
                all.contains(k) && store.contains_key(k) && k != "trajectory"@ && k
                    != "final_reasoning"@ implies s[k] == store[k] by {
                assert(all.to_set().contains(k));
                assert(first.contains_key(k));
                assert(s[k] == first[k]);
            }
        }
        Prediction::from_example(Example::from_map(fields))
    }
}

impl RLM {
    /// The predictors of the module.
    pub fn named_predictors(&self) -> (r: Vec<(String, &Predict)>)
        ensures
            named(r@) == seq![
                ("generate_action"@, self.generate_action@),
                ("extract"@, self.extract@),
            ],
    {
        two_named("generate_action", &self.generate_action, "extract", &self.extract)
    }

    /// A copy, whose predictors keep their traces in the same lists.
    pub fn deep_copy(&self) -> (r: Self)
        ensures
            r.signature@ == self.signature@,
            r.max_iterations == self.max_iterations,
            r.max_llm_calls == self.max_llm_calls,
            r.max_output_chars == self.max_output_chars,
            r.verbose == self.verbose,
            r.generate_action@ == self.generate_action@,
            r.extract@ == self.extract@,
    {
        RLM {
            signature: self.signature.clone(),
            max_iterations: self.max_iterations,
            max_llm_calls: self.max_llm_calls,
            max_output_chars: self.max_output_chars,
            verbose: self.verbose,
            generate_action: self.generate_action.clone(),
            extract: self.extract.clone(),
        }
    }
}

/// An output that is not empty and takes at most as many bytes as are allowed is kept as
/// it is. A longer one keeps as many of its first bytes as are allowed, and a note says
/// that more came. Only an empty output is replaced, by a hint.
pub proof fn law_output_is_kept(output: Seq<char>, max: nat)
    requires
        can_cut(output, max),
    ensures
        output.len() > 0 && byte_len_of(output) <= max ==> kept_output(output, max) == output,
        output.len() > 0 && byte_len_of(output) > max ==> exists|n: int|
            0 <= n <= output.len() && byte_len_of(#[trigger] output.take(n)) == max && kept_output(
                output,
                max,
            ) == output.take(n) + "\n... (truncated)"@,
        output.len() == 0 ==> kept_output(output, max) == "(no output - did you forget to print?)"@,
{
    if output.len() > 0 && byte_len_of(output) > max {
        let n = lemma_clean_cut(output, max as int);
        assert(byte_len_of(output.take(n)) == max);
    }
}

} // verus!
