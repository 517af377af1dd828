//! An agent that reasons and acts: at each step it thinks, calls a tool and looks
//! at what came of it, until it has what it needs.

use crate::adapter::{around, tick_list, ticked_list};
use crate::aggregation::{copy_text_map, text_map};
use crate::chain_of_thought::{reasoning_field, ChainOfThought};
use crate::error::{is_other_error, DspyError, Result};
use crate::example::{Example, ExampleSpec};
use crate::json::{
    copy_object, empty_object, json_object, new_object, parsed_json, printed_json, Json, JsonSpec,
};
use crate::predict::{named, two_named, Predict};
use crate::prediction::{field_text, has_only, pick_values, set_field, Prediction};
use crate::rlm::fresh_predict;
use crate::signature::{
    field_list, input_field, names, output_field, push_field, sig_of_text, upsert_all, FieldDef,
    FieldSpec, FieldType, SigSpec, Signature,
};
use crate::strmap::StrMap;
use crate::text::{
    dec_of, dec_size, join, join_of, law_parts_stand_in_a_row, lemma_place_grows, occurs_at,
    place_of, push_text, same, texts,
};
use crate::tool::{tool_text, unknown_arg, Tool, ToolArg};
use crate::trajectory::{
    in_order, key_inserted, key_le, key_of_step, law_trajectory_is_in_order, no_entries,
    ordered_keys, put_entry, step_key, texts_object, texts_to_object,
};
use crate::value::{Value, ValueSpec};
use vstd::prelude::*;

verus! {

/// How an agent is set up.
#[derive(Debug)]
pub struct ReActOptions {
    /// How many steps there may be.
    pub max_iters: usize,
}

impl Default for ReActOptions {
    /// Twenty steps.
    fn default() -> (r: Self)
        ensures
            r.max_iters == 20,
    {
        ReActOptions { max_iters: 20 }
    }
}

/// An agent that reasons and acts.
#[derive(Debug)]
pub struct ReAct {
    pub tools: StrMap<Tool>,
    pub max_iters: usize,
    pub react_predict: Predict,
    pub extract_predict: ChainOfThought,
    pub original_signature: Signature,
}

// ---------------------------------------------------------------------------
// Setting up
// ---------------------------------------------------------------------------

/// What the tool that ends the task is for.
pub open spec fn finish_desc(s: SigSpec) -> Seq<char> {
    "Marks the task as complete. Signals that all information for producing "@ + ticked_list(
        names(s.outputs()),
    ) + " is now available."@
}

/// A tool is the one that ends the task.
pub open spec fn is_finish(t: Tool, s: SigSpec) -> bool {
    &&& t.name@ == "finish"@
    &&& t.desc@ == finish_desc(s)
    &&& t.args@ == Map::<Seq<char>, ToolArg>::empty()
    &&& t.args.keys() == Seq::<Seq<char>>::empty()
}

/// The tools of a list under their names. Of tools with the same name the last is
/// taken.
pub open spec fn tools_by_name(tools: Seq<Tool>) -> Map<Seq<char>, Tool>
    decreases tools.len(),
{
    if tools.len() == 0 {
        Map::empty()
    } else {
        tools_by_name(tools.drop_last()).insert(tools.last().name@, tools.last())
    }
}

/// The names of the tools of a list, each once.
pub open spec fn tool_names(tools: Seq<Tool>) -> Seq<Seq<char>>
    decreases tools.len(),
{
    if tools.len() == 0 {
        Seq::empty()
    } else {
        with_name(tool_names(tools.drop_last()), tools.last().name@)
    }
}

/// Names with one more, unless it is there.
pub open spec fn with_name(names: Seq<Seq<char>>, name: Seq<char>) -> Seq<Seq<char>> {
    if names.contains(name) {
        names
    } else {
        names.push(name)
    }
}

/// The numbered lines that show tools.
pub open spec fn tool_lines(tools: Map<Seq<char>, Tool>, order: Seq<Seq<char>>) -> Seq<Seq<char>> {
    Seq::new(
        order.len(),
        |i: int|
            "("@ + dec_of((i + 1) as nat) + ") "@ + tool_text(
                tools[order[i]].name@,
                tools[order[i]].desc@,
                tools[order[i]].args.keys(),
            ),
    )
}

/// The lines of the agent's instructions.
pub open spec fn react_parts(
    s: SigSpec,
    tools: Map<Seq<char>, Tool>,
    order: Seq<Seq<char>>,
) -> Seq<Seq<char>> {
    (if s.instructions.len() > 0 {
        seq![s.instructions + "\n"@]
    } else {
        Seq::empty()
    }) + seq![
        "You are an Agent. In each episode, you will be given the fields "@ + ticked_list(
            names(s.inputs()),
        ) + " as input. And you can see your past trajectory so far."@,
        "Your goal is to use one or more of the supplied tools to collect any necessary information for producing "@
            + ticked_list(names(s.outputs())) + ".\n"@,
        "To do this, you will interleave next_thought, next_tool_name, and next_tool_args in each turn, and also when finishing the task."@,
        "After each tool call, you receive a resulting observation, which gets appended to your trajectory.\n"@,
        "When writing next_thought, you may reason about the current situation and plan for future steps."@,
        "When selecting the next_tool_name and its next_tool_args, the tool must be one of:\n"@,
    ] + tool_lines(tools, order) + seq![
        "When providing `next_tool_args`, the value inside the field must be in JSON format"@,
    ]
}

/// Fields of a type that have a name and no more.
pub open spec fn bare_fields(names: Seq<Seq<char>>, t: FieldType) -> Seq<FieldSpec> {
    names.map_values(|n: Seq<char>| FieldSpec::bare(n, t))
}

/// The signature of a step.
pub open spec fn react_sig(
    s: SigSpec,
    tools: Map<Seq<char>, Tool>,
    order: Seq<Seq<char>>,
) -> SigSpec {
    SigSpec {
        instructions: join_of(react_parts(s, tools, order), "\n"@),
        fields: upsert_all(
            Seq::empty(),
            bare_fields(names(s.inputs()), FieldType::Input) + seq![
                FieldSpec::bare("trajectory"@, FieldType::Input),
                FieldSpec::bare("next_thought"@, FieldType::Output),
                FieldSpec::bare("next_tool_name"@, FieldType::Output),
                FieldSpec::bare("next_tool_args"@, FieldType::Output),
            ],
        ),
    }
}

/// The signature that takes the outputs from the trajectory.
pub open spec fn react_extract_sig(s: SigSpec) -> SigSpec {
    SigSpec {
        instructions: s.instructions,
        fields: upsert_all(
            Seq::empty(),
            bare_fields(names(s.inputs()), FieldType::Input).push(
                FieldSpec::bare("trajectory"@, FieldType::Input),
            ) + bare_fields(names(s.outputs()), FieldType::Output),
        ),
    }
}

/// Appends fields that have a name and no more.
pub(crate) fn push_bare(v: &mut Vec<FieldDef>, names: &Vec<String>, input: bool)
    ensures
        field_list(final(v)@) == field_list(old(v)@) + bare_fields(
            texts(names@),
            if input {
                FieldType::Input
            } else {
                FieldType::Output
            },
        ),
{
    let ghost before = field_list(v@);
    let ghost t = if input {
        FieldType::Input
    } else {
        FieldType::Output
    };
    let ghost want = bare_fields(texts(names@), t);
    let mut i: usize = 0;
    proof {
        assert(before + want.take(0) =~= before);
    }
    while i < names.len()
        invariant
            i <= names.len(),
            t == if input {
                FieldType::Input
            } else {
                FieldType::Output
            },
            want == bare_fields(texts(names@), t),
            field_list(v@) == before + want.take(i as int),
        decreases names.len() - i,
    {
        let f = if input {
            input_field(names[i].as_str())
        } else {
            output_field(names[i].as_str())
        };
        push_field(v, f);
        proof {
            assert(want.take(i + 1) =~= want.take(i as int).push(want[i as int]));
            assert((before + want.take(i as int)).push(want[i as int]) =~= before + want.take(
                i + 1,
            ));
        }
        i = i + 1;
    }
    proof {
        assert(want.take(i as int) =~= want);
    }
}

/// The tools of a list under their names, and the one that ends the task.
fn collect_tools(tools: Vec<Tool>, finish: Tool) -> (r: StrMap<Tool>)
    ensures
        r@ == tools_by_name(tools@).insert(finish.name@, finish),
        r.keys() == with_name(tool_names(tools@), finish.name@),
{
    let ghost all = tools@;
    let mut r: StrMap<Tool> = StrMap::new();
    proof {
        assert(all.take(0) =~= Seq::<Tool>::empty());
        assert(r@ =~= Map::<Seq<char>, Tool>::empty());
    }
    for t in it: tools
        invariant
            it.seq() == all,
            r@ == tools_by_name(all.take(it.index() as int)),
            r.keys() == tool_names(all.take(it.index() as int)),
    {
        proof {
            let i = it.index() as int;
            assert(all.take(i + 1).drop_last() =~= all.take(i));
            assert(all.take(i + 1).last() == t);
            use_type_invariant(&r);
            r.lemma_shape();
        }
        r.insert(t.name.clone(), t);
    }
    proof {
        assert(all.take(all.len() as int) =~= all);
        use_type_invariant(&r);
        r.lemma_shape();
    }
    r.insert(finish.name.clone(), finish);
    r
}

fn push_tool_lines(parts: &mut Vec<String>, tools: &StrMap<Tool>)
    ensures
        texts(final(parts)@) == texts(old(parts)@) + tool_lines(tools@, tools.keys()),
{
    let ghost before = texts(parts@);
    let ghost want = tool_lines(tools@, tools.keys());
    let n: usize = tools.len();
    let mut i: usize = 0;
    proof {
        use_type_invariant(tools);
        tools.lemma_shape();
        assert(before + want.take(0) =~= before);
    }
    while i < n
        invariant
            n == tools.keys().len(),
            i <= n,
            want == tool_lines(tools@, tools.keys()),
            texts(parts@) == before + want.take(i as int),
        decreases n - i,
    {
        let mut line = "(".to_string();
        line.append(dec_size(i + 1).as_str());
        line.append(") ");
        line.append(tools.value_at(i).to_text().as_str());
        push_text(parts, line);
        proof {
            assert(want.take(i + 1) =~= want.take(i as int).push(want[i as int]));
            assert((before + want.take(i as int)).push(want[i as int]) =~= before + want.take(
                i + 1,
            ));
        }
        i = i + 1;
    }
    proof {
        assert(want.take(i as int) =~= want);
    }
}

fn react_instructions(signature: &Signature, tools: &StrMap<Tool>) -> (r: String)
    ensures
        r@ == join_of(react_parts(signature@, tools@, tools.keys()), "\n"@),
{
    let mut parts: Vec<String> = Vec::new();
    proof {
        assert(texts(parts@) =~= Seq::<Seq<char>>::empty());
    }
    if !signature.instructions().is_empty() {
        let mut line = signature.instructions().to_owned();
        line.append("\n");
        push_text(&mut parts, line);
    }
    let ghost first = texts(parts@);
    push_text(
        &mut parts,
        around(
            "You are an Agent. In each episode, you will be given the fields ",
            tick_list(&signature.input_names()).as_str(),
            " as input. And you can see your past trajectory so far.",
        ),
    );
    push_text(
        &mut parts,
        around(
            "Your goal is to use one or more of the supplied tools to collect any necessary information for producing ",
            tick_list(&signature.output_names()).as_str(),
            ".\n",
        ),
    );
    push_text(
        &mut parts,
        "To do this, you will interleave next_thought, next_tool_name, and next_tool_args in each turn, and also when finishing the task.".to_string(),
    );
    push_text(
        &mut parts,
        "After each tool call, you receive a resulting observation, which gets appended to your trajectory.\n".to_string(),
    );
    push_text(
        &mut parts,
        "When writing next_thought, you may reason about the current situation and plan for future steps.".to_string(),
    );
    push_text(
        &mut parts,
        "When selecting the next_tool_name and its next_tool_args, the tool must be one of:\n".to_string(),
    );
    push_tool_lines(&mut parts, tools);
    push_text(
        &mut parts,
        "When providing `next_tool_args`, the value inside the field must be in JSON format".to_string(),
    );
    proof {
        let want = react_parts(signature@, tools@, tools.keys());
        assert(texts(parts@) =~= want);
    }
    join(&parts, "\n")
}

impl ReAct {
    /// An agent for a task, with tools.
    pub fn new(signature: Signature, tools: Vec<Tool>, options: Option<ReActOptions>) -> (r: Self)
        ensures
            ({
                let s = signature@;
                let finish = r.tools@["finish"@];
                &&& is_finish(finish, s)
                &&& r.tools@ == tools_by_name(tools@).insert("finish"@, finish)
                &&& r.tools.keys() == with_name(tool_names(tools@), "finish"@)
                &&& r.max_iters == match options {
                    Some(o) => o.max_iters,
                    None => 20,
                }
                &&& r.react_predict@ == fresh_predict(
                    react_sig(s, r.tools@, r.tools.keys()),
                )
                &&& r.extract_predict@ == fresh_predict(
                    react_extract_sig(s).prepend(reasoning_field()),
                )
                &&& r.original_signature == signature
            }),
    {
        let max_iters: usize = match options {
            Some(o) => o.max_iters,
            None => 20,
        };
        let inputs = signature.input_names();
        let outputs = signature.output_names();
        let desc = around(
            "Marks the task as complete. Signals that all information for producing ",
            tick_list(&outputs).as_str(),
            " is now available.",
        );
        let finish = Tool::new("finish", desc.as_str(), StrMap::new());
        let tools_map = collect_tools(tools, finish);
        let instructions = react_instructions(&signature, &tools_map);
        let mut fields: Vec<FieldDef> = Vec::new();
        push_bare(&mut fields, &inputs, true);
        push_field(&mut fields, input_field("trajectory"));
        push_field(&mut fields, output_field("next_thought"));
        push_field(&mut fields, output_field("next_tool_name"));
        push_field(&mut fields, output_field("next_tool_args"));
        proof {
            assert(field_list(fields@) =~= bare_fields(
                names(signature@.inputs()),
                FieldType::Input,
            ) + seq![
                FieldSpec::bare("trajectory"@, FieldType::Input),
                FieldSpec::bare("next_thought"@, FieldType::Output),
                FieldSpec::bare("next_tool_name"@, FieldType::Output),
                FieldSpec::bare("next_tool_args"@, FieldType::Output),
            ]);
        }
        let react_predict = Predict::new(Signature::new(fields, instructions.as_str()));
        let mut extract_fields: Vec<FieldDef> = Vec::new();
        push_bare(&mut extract_fields, &inputs, true);
        push_field(&mut extract_fields, input_field("trajectory"));
        push_bare(&mut extract_fields, &outputs, false);
        proof {
            assert(field_list(extract_fields@) =~= bare_fields(
                names(signature@.inputs()),
                FieldType::Input,
            ).push(FieldSpec::bare("trajectory"@, FieldType::Input)) + bare_fields(
                names(signature@.outputs()),
                FieldType::Output,
            ));
        }
        let extract = Signature::new(extract_fields, signature.instructions());
        ReAct {
            tools: tools_map,
            max_iters,
            react_predict,
            extract_predict: ChainOfThought::new(&extract),
            original_signature: signature,
        }
    }

    /// An agent for a task that is given in shorthand.
    pub fn from_string(spec_text: &str, tools: Vec<Tool>, options: Option<ReActOptions>) -> (r:
        Result<Self>)
        ensures
            match sig_of_text(spec_text@) {
                Ok(s) => r matches Ok(a) && a.original_signature@ == s && a.tools@
                    == tools_by_name(tools@).insert("finish"@, a.tools@["finish"@]) && is_finish(
                    a.tools@["finish"@],
                    s,
                ) && a.max_iters == (match options {
                    Some(o) => o.max_iters,
                    None => 20,
                }) && a.react_predict@ == fresh_predict(react_sig(s, a.tools@, a.tools.keys()))
                    && a.extract_predict@ == fresh_predict(
                    react_extract_sig(s).prepend(reasoning_field()),
                ),
                Err(m) => r matches Err(DspyError::InvalidSignature(e)) && e@ == m,
            },
    {
        match Signature::from_string(spec_text) {
            Ok(sig) => Ok(ReAct::new(sig, tools, options)),
            Err(e) => Err(e),
        }
    }

    /// The predictor of a step.
    pub fn react_predict(&self) -> (r: &Predict)
        ensures
            *r == self.react_predict,
    {
        &self.react_predict
    }

    /// The predictor of a step, to be changed.
    pub fn react_predict_mut(&mut self) -> (r: &mut Predict)
        ensures
            *r == old(self).react_predict,
            *final(self) == (ReAct { react_predict: *final(r), ..*old(self) }),
    {
        &mut self.react_predict
    }

    /// The predictor that takes the outputs from the trajectory.
    pub fn extract_predict(&self) -> (r: &ChainOfThought)
        ensures
            *r == self.extract_predict,
    {
        &self.extract_predict
    }

    /// The predictor that takes the outputs from the trajectory, to be changed.
    pub fn extract_predict_mut(&mut self) -> (r: &mut ChainOfThought)
        ensures
            *r == old(self).extract_predict,
            *final(self) == (ReAct { extract_predict: *final(r), ..*old(self) }),
    {
        &mut self.extract_predict
    }
}

// ---------------------------------------------------------------------------
// Trajectories
// ---------------------------------------------------------------------------

/// The lines of a trajectory, in the order of the steps.
pub open spec fn trajectory_lines(m: Map<Seq<char>, Seq<char>>, keys: Seq<Seq<char>>) -> Seq<
    Seq<char>,
> {
    in_order(keys).map_values(|k: Seq<char>| "["@ + k + "] "@ + m[k])
}

/// How a trajectory is shown to a model.
pub open spec fn trajectory_text(m: Map<Seq<char>, Seq<char>>, keys: Seq<Seq<char>>) -> Seq<char> {
    join_of(trajectory_lines(m, keys), "\n"@)
}

/// Shows a trajectory to a model.
pub fn format_trajectory(trajectory: &StrMap<String>) -> (r: String)
    ensures
        r@ == trajectory_text(text_map(*trajectory), trajectory.keys()),
{
    let keys = ordered_keys(trajectory);
    let ghost want = trajectory_lines(text_map(*trajectory), trajectory.keys());
    let mut lines: Vec<String> = Vec::new();
    let mut i: usize = 0;
    proof {
        use_type_invariant(trajectory);
        trajectory.lemma_shape();
        law_trajectory_is_in_order(trajectory.keys());
        assert(texts(lines@) =~= want.take(0));
    }
    while i < keys.len()
        invariant
            i <= keys.len(),
            texts(keys@) == in_order(trajectory.keys()),
            forall|k: Seq<char>| #[trigger]
                trajectory@.contains_key(k) <==> trajectory.keys().contains(k),
            in_order(trajectory.keys()).to_multiset() == trajectory.keys().to_multiset(),
            want == trajectory_lines(text_map(*trajectory), trajectory.keys()),
            texts(lines@) == want.take(i as int),
        decreases keys.len() - i,
    {
        proof {
            lemma_same_members(in_order(trajectory.keys()), trajectory.keys(), i as int);
            assert(texts(keys@)[i as int] == keys@[i as int]@);
            assert(trajectory@.contains_key(keys@[i as int]@));
        }
        if let Some(v) = trajectory.get(keys[i].as_str()) {
            let mut line = around("[", keys[i].as_str(), "] ");
            line.append(v.as_str());
            push_text(&mut lines, line);
        }
        proof {
            assert(want.take(i + 1) =~= want.take(i as int).push(want[i as int]));
        }
        i = i + 1;
    }
    proof {
        assert(want.take(i as int) =~= want);
    }
    join(&lines, "\n")
}

/// What a rearrangement holds, what was rearranged holds.
pub proof fn lemma_same_members(a: Seq<Seq<char>>, b: Seq<Seq<char>>, i: int)
    requires
        a.to_multiset() == b.to_multiset(),
        0 <= i < a.len(),
    ensures
        b.contains(a[i]),
{
    broadcast use vstd::seq_lib::group_to_multiset_ensures;

    assert(a.contains(a[i]));
    assert(a.to_multiset().count(a[i]) > 0);
    assert(b.to_multiset().count(a[i]) > 0);
}

/// The keys of the oldest tool call: the first four in the order of the steps.
pub open spec fn oldest_call(keys: Seq<Seq<char>>) -> Seq<Seq<char>> {
    in_order(keys).take(4)
}

/// What is said of a trajectory that is too short to be cut.
pub open spec fn too_short() -> Seq<char> {
    "Trajectory cannot be truncated — only has one tool call"@
}

impl ReAct {
    /// The trajectory without its oldest tool call.
    pub fn truncate_trajectory(&self, trajectory: &StrMap<String>) -> (r: Result<StrMap<String>>)
        ensures
            match r {
                Ok(m) => trajectory.keys().len() >= 4 && text_map(m) == text_map(
                    *trajectory,
                ).remove_keys(oldest_call(trajectory.keys()).to_set()),
                Err(e) => trajectory.keys().len() < 4 && is_other_error(e, too_short()),
            },
    {
        proof {
            use_type_invariant(trajectory);
            trajectory.lemma_shape();
            law_trajectory_is_in_order(trajectory.keys());
        }
        if trajectory.len() < 4 {
            return Err(
                DspyError::Other(
                    "Trajectory cannot be truncated — only has one tool call".to_string(),
                ),
            );
        }
        let keys = ordered_keys(trajectory);
        let ghost order = in_order(trajectory.keys());
        let ghost all = text_map(*trajectory);
        let mut m = copy_text_map(trajectory);
        let mut i: usize = 0;
        proof {
            assert(all.remove_keys(order.take(0).to_set()) =~= all);
        }
        while i < 4
            invariant
                i <= 4,
                texts(keys@) == order,
                order.len() >= 4,
                text_map(m) == all.remove_keys(order.take(i as int).to_set()),
            decreases 4 - i,
        {
            let ghost before = text_map(m);
            let ghost k = order[i as int];
            let _ = m.remove(keys[i].as_str());
            proof {
                let a = order.take(i as int);
                assert(order.take(i + 1) =~= a.push(k));
                a.lemma_push_to_set_commute(k);
                assert(texts(keys@)[i as int] == keys@[i as int]@);
                assert(text_map(m) =~= before.remove(k));
                assert(before.remove(k) =~= all.remove_keys(a.to_set().insert(k)));
            }
            i = i + 1;
        }
        Ok(m)
    }
}

/// Cutting a trajectory takes out four entries, and no entry that stays is older
/// than one that goes.
pub proof fn law_the_oldest_call_goes(keys: Seq<Seq<char>>, gone: Seq<char>, kept: Seq<char>)
    requires
        keys.len() >= 4,
        keys.no_duplicates(),
        oldest_call(keys).contains(gone),
        keys.contains(kept),
        !oldest_call(keys).contains(kept),
    ensures
        oldest_call(keys).len() == 4,
        oldest_call(keys).no_duplicates(),
        key_le(gone, kept),
{
    broadcast use vstd::seq_lib::group_to_multiset_ensures;

    let order = in_order(keys);
    law_trajectory_is_in_order(keys);
    assert(keys.to_multiset().count(kept) > 0);
    assert(order.contains(kept));
    let j = choose|j: int| 0 <= j < order.len() && order[j] == kept;
    let i = choose|i: int| 0 <= i < 4 && oldest_call(keys)[i] == gone;
    if j < 4 {
        assert(oldest_call(keys)[j] == kept);
    }
    assert(key_le(order[i], order[j]));
    keys.lemma_multiset_has_no_duplicates();
    order.lemma_multiset_has_no_duplicates_conv();
    assert forall|a: int, b: int| 0 <= a < b < 4 implies oldest_call(keys)[a]
        != oldest_call(keys)[b] by {
        assert(order[a] != order[b]);
    }
}

// ---------------------------------------------------------------------------
// Runs
// ---------------------------------------------------------------------------

/// A run of the agent.
#[derive(Debug)]
pub struct ReactRun {
    pub input_args: Example,
    pub trajectory: StrMap<String>,
    pub idx: usize,
    pub max_iters: usize,
    pub tool_name: String,
    pub ended: bool,
}

/// What a run asks for next.
#[derive(Debug)]
pub enum ReactStep {
    /// A call of the predictor of a step, with these inputs.
    Think(Example),
    /// A call of the predictor that takes the outputs from the trajectory, with
    /// these inputs.
    Extract(Example),
}

/// What a step asks for.
#[derive(Debug)]
pub enum ToolStep {
    /// A call of the tool that the run names, with these arguments.
    Invoke(StrMap<Json>),
    /// Nothing: what came of the step is known.
    Observed,
}

/// How many steps a run may have: as its inputs say, or else as it was set up.
pub open spec fn steps_allowed(args: ExampleSpec, default: usize) -> usize {
    if args.store.contains_key("max_iters"@) {
        match args.store["max_iters"@] {
            ValueSpec::Integer(n) => n as usize,
            _ => default,
        }
    } else {
        default
    }
}

/// The inputs without a field.
pub open spec fn without_field(e: ExampleSpec, key: Seq<char>) -> ExampleSpec {
    ExampleSpec {
        store: e.store.remove(key),
        keys: if e.store.contains_key(key) {
            e.keys.remove(e.keys.index_of(key))
        } else {
            e.keys
        },
        ..e
    }
}

/// The inputs with the trajectory.
pub open spec fn with_trajectory(run: ReactRun) -> ExampleSpec {
    run.input_args@.with(
        "trajectory"@,
        ValueSpec::Text(trajectory_text(text_map(run.trajectory), run.trajectory.keys())),
    )
}

/// The tool that a prediction names, or the one that ends the task.
pub open spec fn named_tool(p: ExampleSpec) -> Seq<char> {
    match p.text("next_tool_name"@) {
        Some(t) => t,
        None => "finish"@,
    }
}

/// The arguments that a prediction gives, or none.
pub open spec fn named_args(p: ExampleSpec) -> Map<Seq<char>, JsonSpec> {
    let raw = match p.text("next_tool_args"@) {
        Some(t) => t,
        None => "{}"@,
    };
    match parsed_json(raw) {
        Ok(JsonSpec::Object(m)) => m,
        _ => empty_object(),
    }
}

/// The trajectory with what a step thought and called.
pub open spec fn with_call(
    t: Map<Seq<char>, Seq<char>>,
    idx: nat,
    p: ExampleSpec,
) -> Map<Seq<char>, Seq<char>> {
    t.insert(step_key("thought_"@, idx), field_text(p, "next_thought"@)).insert(
        step_key("tool_name_"@, idx),
        named_tool(p),
    ).insert(step_key("tool_args_"@, idx), printed_json(JsonSpec::Object(named_args(p))))
}

/// What is observed when a tool fails.
pub open spec fn failure_text(tool: Seq<char>, e: Seq<char>) -> Seq<char> {
    "Execution error in "@ + tool + ": "@ + e
}

/// What is observed when a call gives a tool an argument that it does not take.
pub open spec fn unknown_arg_text(tool: Seq<char>, k: Seq<char>) -> Seq<char> {
    failure_text(tool, "Arg '"@ + k + "' is not in the tool's args"@)
}

/// The observation that a step has without a tool being called, if it has one.
pub open spec fn observed_at_once(
    tools: Map<Seq<char>, Tool>,
    p: ExampleSpec,
    o: Seq<char>,
) -> bool {
    let name = named_tool(p);
    if !tools.contains_key(name) {
        o == "Tool '"@ + name + "' not found"@
    } else if !takes_all(tools[name], named_args(p)) {
        exists|k: Seq<char>|
            #![trigger named_args(p).contains_key(k)]
            named_args(p).contains_key(k) && !tools[name].args@.contains_key(k) && o
                == unknown_arg_text(name, k)
    } else {
        name == "finish"@ && o == printed_json(JsonSpec::Text("Completed."@))
    }
}

/// A tool takes all the arguments.
pub open spec fn takes_all(t: Tool, args: Map<Seq<char>, JsonSpec>) -> bool {
    forall|k: Seq<char>| #[trigger] args.contains_key(k) ==> t.args@.contains_key(k)
}

/// A tool is called with what a prediction says.
pub open spec fn calls_tool(tools: Map<Seq<char>, Tool>, p: ExampleSpec) -> bool {
    let name = named_tool(p);
    tools.contains_key(name) && takes_all(tools[name], named_args(p)) && name != "finish"@
}

impl ReactRun {
    fn observe(&mut self, observation: String)
        requires
            old(self).idx < usize::MAX,
        ensures
            text_map(final(self).trajectory) == text_map(old(self).trajectory).insert(
                step_key("observation_"@, old(self).idx as nat),
                observation@,
            ),
            final(self).idx == old(self).idx + 1,
            final(self).ended == (old(self).ended || old(self).tool_name@ == "finish"@),
            final(self).tool_name == old(self).tool_name,
            final(self).input_args == old(self).input_args,
            final(self).max_iters == old(self).max_iters,
    {
        let key = key_of_step("observation_", self.idx);
        put_entry(&mut self.trajectory, key, observation);
        self.idx = self.idx + 1;
        if same(self.tool_name.as_str(), "finish") {
            self.ended = true;
        }
    }
}

impl ReAct {
    /// Begins a run.
    pub fn begin(&self, args: &Example) -> (r: ReactRun)
        ensures
            r.input_args@ == without_field(args@, "max_iters"@),
            text_map(r.trajectory) == Map::<Seq<char>, Seq<char>>::empty(),
            r.trajectory.keys() == Seq::<Seq<char>>::empty(),
            r.idx == 0,
            r.max_iters == steps_allowed(args@, self.max_iters),
            !r.ended,
    {
        let max_iters: usize = match args.get("max_iters") {
            Some(v) => match v.as_i64() {
                Some(n) => #[verifier::truncate]
                (n as usize),
                None => self.max_iters,
            },
            None => self.max_iters,
        };
        let mut input_args = args.clone();
        let _ = input_args.remove("max_iters");
        ReactRun {
            input_args,
            trajectory: no_entries(),
            idx: 0,
            max_iters,
            tool_name: String::new(),
            ended: false,
        }
    }

    /// What a run asks for next: another step as long as there may be one, and
    /// then the outputs from the trajectory.
    pub fn next(&self, run: &ReactRun) -> (r: ReactStep)
        ensures
            if run.idx < run.max_iters && !run.ended {
                r matches ReactStep::Think(e) && e@ == with_trajectory(*run)
            } else {
                r matches ReactStep::Extract(e) && e@ == with_trajectory(*run)
            },
    {
        let args = run.input_args.clone().field(
            "trajectory",
            format_trajectory(&run.trajectory),
        );
        if run.idx < run.max_iters && !run.ended {
            ReactStep::Think(args)
        } else {
            ReactStep::Extract(args)
        }
    }

    /// Takes the failure of the predictor of a step, which ends the steps.
    pub fn on_failure(&self, run: &mut ReactRun)
        ensures
            *final(run) == (ReactRun { ended: true, ..*old(run) }),
    {
        run.ended = true;
    }

    /// Takes what a step predicts: the tool that it names is called, or what came
    /// of it is known at once.
    pub fn on_prediction(&self, run: &mut ReactRun, pred: &Prediction) -> (r: ToolStep)
        requires
            old(run).idx < old(run).max_iters,
            !old(run).ended,
        ensures
            ({
                let p = pred@.example;
                let t = with_call(text_map(old(run).trajectory), old(run).idx as nat, p);
                &&& final(run).tool_name@ == named_tool(p)
                &&& final(run).input_args == old(run).input_args
                &&& final(run).max_iters == old(run).max_iters
                &&& match r {
                    ToolStep::Invoke(a) => {
                        &&& calls_tool(self.tools@, p)
                        &&& json_object(a) == named_args(p)
                        &&& text_map(final(run).trajectory) == t
                        &&& final(run).idx == old(run).idx
                        &&& !final(run).ended
                    },
                    ToolStep::Observed => {
                        &&& !calls_tool(self.tools@, p)
                        &&& exists|o: Seq<char>| #[trigger]
                            observed_at_once(self.tools@, p, o) && text_map(
                                final(run).trajectory,
                            ) == t.insert(step_key("observation_"@, old(run).idx as nat), o)
                        &&& final(run).idx == old(run).idx + 1
                        &&& final(run).ended == (named_tool(p) == "finish"@)
                    },
                }
            }),
    {
        let ghost p = pred@.example;
        let idx: usize = run.idx;
        let thought = pred.text("next_thought");
        let tool_name = match pred.get_str("next_tool_name") {
            Some(t) => t.to_owned(),
            None => "finish".to_string(),
        };
        let raw: &str = match pred.get_str("next_tool_args") {
            Some(t) => t,
            None => "{}",
        };
        let args = match Json::parse(raw) {
            Ok(Json::Object(m)) => m,
            _ => new_object(),
        };
        let shown = Json::Object(copy_object(&args)).to_text();
        put_entry(&mut run.trajectory, key_of_step("thought_", idx), thought);
        put_entry(&mut run.trajectory, key_of_step("tool_name_", idx), tool_name.clone());
        put_entry(&mut run.trajectory, key_of_step("tool_args_", idx), shown);
        run.tool_name = tool_name;
        let ghost t = text_map(run.trajectory);
        let observation: String;
        match self.tools.get(run.tool_name.as_str()) {
            None => {
                observation = around("Tool '", run.tool_name.as_str(), "' not found");
            },
            Some(tool) => {
                proof {
                    use_type_invariant(&args);
                    crate::json::lemma_json_object(args);
                }
                match tool.validate_args(&args) {
                    Err(e) => {
                        let mut o = "Execution error in ".to_string();
                        o.append(run.tool_name.as_str());
                        o.append(": ");
                        o.append(e.message().as_str());
                        observation = o;
                        proof {
                            let k = unknown_arg(args.keys(), tool.args@).unwrap();
                            assert(named_args(p).contains_key(k));
                            assert(!takes_all(*tool, named_args(p)));
                            assert(observation@ == unknown_arg_text(named_tool(p), k));
                        }
                    },
                    Ok(_) => {
                        proof {
                            assert(takes_all(*tool, named_args(p))) by {
                                assert forall|k: Seq<char>| #[trigger]
                                    named_args(p).contains_key(k) implies tool.args@.contains_key(
                                    k,
                                ) by {
                                    assert(args@.contains_key(k));
                                }
                            }
                        }
                        if same(run.tool_name.as_str(), "finish") {
                            observation = Json::text("Completed.").to_text();
                        } else {
                            return ToolStep::Invoke(args);
                        }
                    },
                }
            },
        }
        let ghost o = observation@;
        proof {
            assert(observed_at_once(self.tools@, p, o));
        }
        run.observe(observation);
        ToolStep::Observed
    }

    /// Takes what a tool gave.
    pub fn on_tool_result(&self, run: &mut ReactRun, result: Result<Json>)
        requires
            old(run).idx < old(run).max_iters,
        ensures
            text_map(final(run).trajectory) == text_map(old(run).trajectory).insert(
                step_key("observation_"@, old(run).idx as nat),
                match result {
                    Ok(j) => printed_json(j@),
                    Err(e) => failure_text(old(run).tool_name@, e.message_of()),
                },
            ),
            final(run).idx == old(run).idx + 1,
            final(run).ended == (old(run).ended || old(run).tool_name@ == "finish"@),
            final(run).tool_name == old(run).tool_name,
            final(run).input_args == old(run).input_args,
            final(run).max_iters == old(run).max_iters,
    {
        let observation = match result {
            Ok(j) => j.to_text(),
            Err(e) => {
                let mut o = "Execution error in ".to_string();
                o.append(run.tool_name.as_str());
                o.append(": ");
                o.append(e.message().as_str());
                o
            },
        };
        run.observe(observation);
    }

    /// The prediction of a run: the outputs that were taken from the trajectory,
    /// the trajectory itself, and the reasoning if there is one.
    pub fn finish(&self, run: &ReactRun, extract: &Prediction) -> (r: Prediction)
        ensures
            ({
                let found = extract@.example.store;
                let outputs = found.restrict(
                    names(self.original_signature@.outputs()).to_set(),
                ).insert(
                    "trajectory"@,
                    ValueSpec::Text(
                        printed_json(JsonSpec::Object(texts_object(text_map(run.trajectory)))),
                    ),
                );
                has_only(
                    r@,
                    if found.contains_key("reasoning"@) {
                        outputs.insert("reasoning"@, found["reasoning"@])
                    } else {
                        outputs
                    },
                )
            }),
    {
        let mut data = pick_values(extract, &self.original_signature.output_names());
        let shown = Json::Object(texts_to_object(&run.trajectory)).to_text();
        set_field(&mut data, "trajectory", Value::String(shown));
        if let Some(v) = extract.get("reasoning") {
            set_field(&mut data, "reasoning", v.copy());
        }
        Prediction::new(data)
    }
}

impl ReAct {
    /// The predictors of the module.
    pub fn named_predictors(&self) -> (r: Vec<(String, &Predict)>)
        ensures
            named(r@) == seq![
                ("react_predict"@, self.react_predict@),
                ("extract_predict"@, self.extract_predict@),
            ],
    {
        two_named(
            "react_predict",
            &self.react_predict,
            "extract_predict",
            self.extract_predict.predict(),
        )
    }

    /// A copy without the tools, which cannot be copied, and with a new extractor, whose
    /// traces go to a list of their own. The other predictor keeps its list.
    pub fn deep_copy(&self) -> (r: Self)
        ensures
            r.tools.keys() == Seq::<Seq<char>>::empty(),
            r.max_iters == self.max_iters,
            r.react_predict@ == self.react_predict@,
            r.extract_predict@ == fresh_predict(
                self.extract_predict@.signature.prepend(reasoning_field()),
            ),
            r.original_signature@ == self.original_signature@,
    {
        ReAct {
            tools: StrMap::new(),
            max_iters: self.max_iters,
            react_predict: self.react_predict.clone(),
            extract_predict: ChainOfThought::new(&self.extract_predict.predict().signature),
            original_signature: self.original_signature.clone(),
        }
    }
}

/// An entry of a trajectory stands at `p` as a line of its own: its key in brackets, a
/// space and its value.
pub open spec fn entry_line_at(text: Seq<char>, k: Seq<char>, v: Seq<char>, p: int) -> bool {
    let end = p + k.len() + 3 + v.len();
    &&& occurs_at(text, "["@ + k + "] "@ + v, p)
    &&& p == 0 || text[p - 1] == '\n'
    &&& end == text.len() || text[end] == '\n'
}

/// How many characters the lines of entries take, each with a line break.
pub open spec fn lines_length(m: Map<Seq<char>, Seq<char>>, keys: Seq<Seq<char>>) -> nat
    decreases keys.len(),
{
    if keys.len() == 0 {
        0
    } else {
        lines_length(m, keys.drop_last()) + keys.last().len() + 3 + m[keys.last()].len() + 1
    }
}

proof fn lemma_lines_length_inserted(
    m: Map<Seq<char>, Seq<char>>,
    order: Seq<Seq<char>>,
    k: Seq<char>,
)
    ensures
        lines_length(m, key_inserted(order, k)) == lines_length(m, order) + k.len() + 3
            + m[k].len() + 1,
    decreases order.len(),
{
    assert(order.push(k).drop_last() =~= order);
    if order.len() > 0 && !key_le(order.last(), k) {
        let f = key_inserted(order.drop_last(), k);
        assert(f.push(order.last()).drop_last() =~= f);
        lemma_lines_length_inserted(m, order.drop_last(), k);
    }
}

proof fn lemma_lines_length(m: Map<Seq<char>, Seq<char>>, keys: Seq<Seq<char>>)
    ensures
        lines_length(m, in_order(keys)) == lines_length(m, keys),
    decreases keys.len(),
{
    if keys.len() > 0 {
        lemma_lines_length(m, keys.drop_last());
        lemma_lines_length_inserted(m, in_order(keys.drop_last()), keys.last());
    }
}

proof fn lemma_lines_joined(
    m: Map<Seq<char>, Seq<char>>,
    order: Seq<Seq<char>>,
    lines: Seq<Seq<char>>,
)
    requires
        lines == order.map_values(|k: Seq<char>| "["@ + k + "] "@ + m[k]),
        order.len() > 0,
    ensures
        join_of(lines, "\n"@).len() + 1 == lines_length(m, order),
    decreases order.len(),
{
    reveal_strlit("\n");
    reveal_strlit("[");
    reveal_strlit("] ");
    assert("\n"@.len() == 1 && "["@.len() == 1 && "] "@.len() == 2);
    assert(lines.last() == "["@ + order.last() + "] "@ + m[order.last()]);
    if order.len() > 1 {
        let d = order.drop_last();
        assert(lines.drop_last() =~= d.map_values(|k: Seq<char>| "["@ + k + "] "@ + m[k]));
        lemma_lines_joined(m, d, lines.drop_last());
    } else {
        assert(lines_length(m, order.drop_last()) == 0);
        assert(lines[0] == lines.last());
    }
}

proof fn lemma_line_stands(m: Map<Seq<char>, Seq<char>>, keys: Seq<Seq<char>>, i: int)
    requires
        0 <= i < keys.len(),
    ensures
        entry_line_at(
            trajectory_text(m, keys),
            in_order(keys)[i],
            m[in_order(keys)[i]],
            place_of(trajectory_lines(m, keys), "\n"@, i),
        ),
{
    reveal_strlit("\n");
    reveal_strlit("[");
    reveal_strlit("] ");
    law_trajectory_is_in_order(keys);
    let lines = trajectory_lines(m, keys);
    let text = trajectory_text(m, keys);
    let p = place_of(lines, "\n"@, i);
    law_parts_stand_in_a_row(lines, "\n"@, i);
    if i > 0 {
        assert(text.subrange(p - 1, p)[0] == '\n');
    }
    if i < keys.len() - 1 {
        law_parts_stand_in_a_row(lines, "\n"@, i + 1);
        let q = place_of(lines, "\n"@, i + 1);
        assert(text.subrange(q - 1, q)[0] == '\n');
    }
}

proof fn lemma_key_is_placed(keys: Seq<Seq<char>>, k: Seq<char>) -> (i: int)
    requires
        keys.contains(k),
    ensures
        0 <= i < keys.len(),
        in_order(keys).len() == keys.len(),
        in_order(keys)[i] == k,
{
    broadcast use vstd::seq_lib::group_to_multiset_ensures;

    law_trajectory_is_in_order(keys);
    assert(keys.to_multiset().count(k) > 0);
    assert(in_order(keys).to_multiset().count(k) > 0);
    assert(in_order(keys).contains(k));
    choose|i: int| 0 <= i < in_order(keys).len() && in_order(keys)[i] == k
}

/// A trajectory is shown to a model whole: every entry is a line of its own, its key in
/// brackets before its value, and there is nothing but those lines.
pub proof fn law_every_entry_is_shown(m: Map<Seq<char>, Seq<char>>, keys: Seq<Seq<char>>)
    ensures
        forall|k: Seq<char>|
            #![trigger keys.contains(k)]
            keys.contains(k) ==> exists|p: int|
                #[trigger] entry_line_at(trajectory_text(m, keys), k, m[k], p),
        keys.len() > 0 ==> trajectory_text(m, keys).len() + 1 == lines_length(m, keys),
        keys.len() == 0 ==> trajectory_text(m, keys).len() == 0,
{
    assert forall|k: Seq<char>|
        #![trigger keys.contains(k)]
        keys.contains(k) implies exists|p: int|
        #[trigger] entry_line_at(trajectory_text(m, keys), k, m[k], p) by {
        let i = lemma_key_is_placed(keys, k);
        lemma_line_stands(m, keys, i);
    }
    law_trajectory_is_in_order(keys);
    if keys.len() > 0 {
        lemma_lines_length(m, keys);
        lemma_lines_joined(m, in_order(keys), trajectory_lines(m, keys));
    }
}

/// The lines of a trajectory come in the order of the steps: what belongs to an earlier
/// step stands before what belongs to a later one.
pub proof fn law_entries_are_shown_in_order(
    m: Map<Seq<char>, Seq<char>>,
    keys: Seq<Seq<char>>,
    earlier: Seq<char>,
    later: Seq<char>,
)
    requires
        keys.contains(earlier),
        keys.contains(later),
        key_le(earlier, later),
        !key_le(later, earlier),
    ensures
        exists|p: int, q: int|
            p < q && #[trigger] entry_line_at(
                trajectory_text(m, keys),
                earlier,
                m[earlier],
                p,
            ) && #[trigger] entry_line_at(trajectory_text(m, keys), later, m[later], q),
{
    let i = lemma_key_is_placed(keys, earlier);
    let j = lemma_key_is_placed(keys, later);
    law_trajectory_is_in_order(keys);
    assert(i < j) by {
        if j < i {
            assert(key_le(in_order(keys)[j], in_order(keys)[i]));
        }
    }
    let lines = trajectory_lines(m, keys);
    lemma_line_stands(m, keys, i);
    lemma_line_stands(m, keys, j);
    reveal_strlit("\n");
    lemma_place_grows(lines, "\n"@, i, j);
}

} // verus!
