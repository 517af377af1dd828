//! An agent that acts by code: at each step it writes code and looks at what running
//! it gave, until it is done.

use crate::adapter::{tick_list, ticked_list};
use crate::aggregation::text_map;
use crate::chain_of_thought::{reasoning_field, ChainOfThought};
use crate::example::{copy_values, Example, ExampleSpec};
use crate::generated_code::{
    code_block, code_block_of, is_blank, ran, raw_code, raw_code_of, run_output,
};
use crate::interpreter::{CodeInterpreterError, ExecutionResult};
use crate::json::{pretty_json, printed_json, Json, JsonSpec};
use crate::predict::{named, two_named, Predict};
use crate::prediction::{field_text, has_only, set_field, Prediction};
use crate::repl_types::{can_cut, can_cut_at};
use crate::rlm::fresh_predict;
use crate::signature::{
    field_list, input_field, names, output_field, push_field, upsert_all, FieldDef, FieldSpec,
    FieldType, SigSpec, Signature,
};
use crate::strmap::StrMap;
use crate::text::{
    byte_len, byte_len_of, byte_prefix, byte_prefix_of, dec_of, dec_size, join, join_of, parse_of,
    parse_size, push_text, texts, trim_of,
};
use crate::tool::Tool;
use crate::trajectory::{
    key_of_step, no_entries, put_entry, step_key, texts_object, texts_to_object,
};
use crate::unicode::{ascii_lowered, same_but_case};
use crate::value::{reads_as, shown, Value, ValueSpec};
use vstd::prelude::*;

verus! {

/// An agent that acts by code.
#[derive(Debug)]
pub struct CodeAct {
    pub tools: Vec<Tool>,
    pub max_iters: usize,
    pub original_signature: Signature,
    pub code_act_predict: Predict,
    pub extractor: ChainOfThought,
}

// ---------------------------------------------------------------------------
// Setting up
// ---------------------------------------------------------------------------

/// The numbered lines that show tools.
pub open spec fn function_lines(tools: Seq<Tool>) -> Seq<Seq<char>> {
    Seq::new(
        tools.len(),
        |i: int|
            "("@ + dec_of((i + 1) as nat) + ") "@ + tools[i].name@ + ": "@ + (
            if tools[i].desc@.len() == 0 {
                "No description"@
            } else {
                tools[i].desc@
            }),
    )
}

/// What the agent is told.
pub open spec fn agent_text(s: SigSpec) -> Seq<char> {
    let inputs = ticked_list(names(s.inputs()));
    let outputs = ticked_list(names(s.outputs()));
    "You are an intelligent agent. For each episode, you will receive the fields "@ + inputs
        + " as input.\nYour goal is to generate executable Python code that collects any necessary information for producing "@
        + outputs
        + ".\nFor each iteration, you will generate a code snippet that either solves the task or progresses towards the solution.\nEnsure any output you wish to extract from the code is printed to the console. The code should be enclosed in a fenced code block.\nWhen all information for producing the outputs ("@
        + outputs
        + ") are available to be extracted, mark `finished=True` besides the final Python code.\nYou have access to the Python Standard Library and the following functions:"@
}

/// The lines of the agent's instructions.
pub open spec fn code_act_parts(s: SigSpec, tools: Seq<Tool>) -> Seq<Seq<char>> {
    (if s.instructions.len() > 0 {
        seq![s.instructions + "\n"@]
    } else {
        Seq::empty()
    }).push(agent_text(s)) + function_lines(tools)
}

/// The field for the trajectory.
pub open spec fn trajectory_field() -> FieldSpec {
    FieldSpec::bare("trajectory"@, FieldType::Input).desc("Previous code execution trajectory"@)
}

/// The signature of a step.
pub open spec fn code_act_sig(s: SigSpec, tools: Seq<Tool>) -> SigSpec {
    SigSpec {
        instructions: join_of(code_act_parts(s, tools), "\n"@),
        fields: upsert_all(
            Seq::empty(),
            s.inputs() + seq![
                trajectory_field(),
                FieldSpec::bare("generated_code"@, FieldType::Output).desc(
                    "Python code that when executed, produces output relevant to answering the question"@,
                ),
                FieldSpec::bare("finished"@, FieldType::Output).desc(
                    "a boolean flag to determine if the process is done"@,
                ),
            ],
        ),
    }
}

/// The signature that takes the outputs from the trajectory.
pub open spec fn code_extract_sig(s: SigSpec) -> SigSpec {
    SigSpec {
        instructions: s.instructions,
        fields: upsert_all(
            Seq::empty(),
            s.inputs().push(trajectory_field()) + s.outputs(),
        ),
    }
}

/// The instructions of the agent.
pub fn build_instructions(sig: &Signature, tools: &Vec<Tool>) -> (r: String)
    ensures
        r@ == join_of(code_act_parts(sig@, tools@), "\n"@),
{
    let mut lines: Vec<String> = Vec::new();
    proof {
        assert(texts(lines@) =~= Seq::<Seq<char>>::empty());
    }
    if !sig.instructions().is_empty() {
        let mut line = sig.instructions().to_owned();
        line.append("\n");
        push_text(&mut lines, line);
    }
    let inputs = tick_list(&sig.input_names());
    let outputs = tick_list(&sig.output_names());
    let mut text =
        "You are an intelligent agent. For each episode, you will receive the fields ".to_string();
    text.append(inputs.as_str());
    text.append(
        " as input.\nYour goal is to generate executable Python code that collects any necessary information for producing ",
    );
    text.append(outputs.as_str());
    text.append(
        ".\nFor each iteration, you will generate a code snippet that either solves the task or progresses towards the solution.\nEnsure any output you wish to extract from the code is printed to the console. The code should be enclosed in a fenced code block.\nWhen all information for producing the outputs (",
    );
    text.append(outputs.as_str());
    text.append(
        ") are available to be extracted, mark `finished=True` besides the final Python code.\nYou have access to the Python Standard Library and the following functions:",
    );
    push_text(&mut lines, text);
    let ghost first = texts(lines@);
    let ghost want = function_lines(tools@);
    let mut i: usize = 0;
    proof {
        assert(first + want.take(0) =~= first);
    }
    while i < tools.len()
        invariant
            i <= tools.len(),
            want == function_lines(tools@),
            texts(lines@) == first + want.take(i as int),
        decreases tools.len() - i,
    {
        let n: usize = tools.len();
        proof {
            assert(i < n);
        }
        let mut line = "(".to_string();
        line.append(dec_size(i + 1).as_str());
        line.append(") ");
        line.append(tools[i].name.as_str());
        line.append(": ");
        if tools[i].desc.as_str().is_empty() {
            line.append("No description");
        } else {
            line.append(tools[i].desc.as_str());
        }
        push_text(&mut lines, line);
        proof {
            assert(want.take(i + 1) =~= want.take(i as int).push(want[i as int]));
            assert((first + want.take(i as int)).push(want[i as int]) =~= first + want.take(i + 1));
        }
        i = i + 1;
    }
    proof {
        assert(want.take(i as int) =~= want);
        assert(texts(lines@) =~= code_act_parts(sig@, tools@));
    }
    join(&lines, "\n")
}

/// Appends fields to a list.
pub(crate) fn push_fields(v: &mut Vec<FieldDef>, more: Vec<FieldDef>)
    ensures
        field_list(final(v)@) == field_list(old(v)@) + field_list(more@),
{
    let ghost before = field_list(v@);
    let ghost all = more@;
    let ghost want = field_list(all);
    proof {
        assert(before + want.take(0) =~= before);
    }
    for f in it: more
        invariant
            it.seq() == all,
            want == field_list(all),
            field_list(v@) == before + want.take(it.index() as int),
    {
        push_field(v, f);
        proof {
            let i = it.index() as int;
            assert(want.take(i + 1) =~= want.take(i).push(want[i]));
            assert((before + want.take(i)).push(want[i]) =~= before + want.take(i + 1));
        }
    }
    proof {
        assert(want.take(all.len() as int) =~= want);
    }
}

impl CodeAct {
    /// An agent for a task, with tools. Where it is not given, there are 5 steps.
    pub fn new(signature: Signature, tools: Vec<Tool>, max_iters: Option<usize>) -> (r: Self)
        ensures
            r.tools == tools,
            r.max_iters == match max_iters {
                Some(n) => n,
                None => 5,
            },
            r.original_signature == signature,
            r.code_act_predict@ == fresh_predict(code_act_sig(signature@, tools@)),
            r.extractor@ == fresh_predict(
                code_extract_sig(signature@).prepend(reasoning_field()),
            ),
    {
        let instructions = build_instructions(&signature, &tools);
        let mut fields = signature.fields_copied(FieldType::Input);
        push_field(
            &mut fields,
            input_field("trajectory").with_desc("Previous code execution trajectory"),
        );
        push_field(
            &mut fields,
            output_field("generated_code").with_desc(
                "Python code that when executed, produces output relevant to answering the question",
            ),
        );
        push_field(
            &mut fields,
            output_field("finished").with_desc(
                "a boolean flag to determine if the process is done",
            ),
        );
        proof {
            assert(field_list(fields@) =~= signature@.inputs() + seq![
                trajectory_field(),
                FieldSpec::bare("generated_code"@, FieldType::Output).desc(
                    "Python code that when executed, produces output relevant to answering the question"@,
                ),
                FieldSpec::bare("finished"@, FieldType::Output).desc(
                    "a boolean flag to determine if the process is done"@,
                ),
            ]);
        }
        let code_act_predict = Predict::new(Signature::new(fields, instructions.as_str()));
        let mut extract_fields = signature.fields_copied(FieldType::Input);
        push_field(
            &mut extract_fields,
            input_field("trajectory").with_desc("Previous code execution trajectory"),
        );
        push_fields(&mut extract_fields, signature.fields_copied(FieldType::Output));
        let extract = Signature::new(extract_fields, signature.instructions());
        CodeAct {
            tools,
            max_iters: match max_iters {
                Some(n) => n,
                None => 5,
            },
            original_signature: signature,
            code_act_predict,
            extractor: ChainOfThought::new(&extract),
        }
    }
}

// ---------------------------------------------------------------------------
// Runs
// ---------------------------------------------------------------------------

/// The code that a prediction has, or what is wrong with it.
pub open spec fn parsed_code(p: ExampleSpec) -> std::result::Result<Seq<char>, Seq<char>> {
    let block = code_block_of(raw_code_of(field_text(p, "generated_code"@)));
    if trim_of(block).len() == 0 {
        Err("Error: Empty code after parsing."@)
    } else {
        Ok(block)
    }
}

/// The code that a prediction has. Where something is wrong with it, the second
/// part says so, and the first is the part of the reply that may hold code.
pub fn parse_code(code_data: &Prediction) -> (r: (String, Option<String>))
    ensures
        match parsed_code(code_data@.example) {
            Ok(code) => r.0@ == code && r.1 is None,
            Err(e) => r.0@ == raw_code_of(field_text(code_data@.example, "generated_code"@)) && (
            r.1 matches Some(m) && m@ == e),
        },
{
    let raw = raw_code(code_data.text("generated_code").as_str());
    let block = code_block(raw.as_str());
    if is_blank(block.as_str()) {
        return (raw, Some("Error: Empty code after parsing.".to_string()));
    }
    (block, None)
}

/// The trajectory as it is shown at the end: in JSON, cut after 50000 bytes.
pub open spec fn shown_trajectory(t: Map<Seq<char>, Seq<char>>) -> Seq<char> {
    let text = pretty_json(JsonSpec::Object(texts_object(t)));
    if byte_len_of(text) > 50000 {
        byte_prefix_of(text, 50000) + "\n... (truncated)"@
    } else {
        text
    }
}

/// The trajectory can be cut.
pub open spec fn can_show(t: Map<Seq<char>, Seq<char>>) -> bool {
    can_cut(pretty_json(JsonSpec::Object(texts_object(t))), 50000)
}

/// Shows the trajectory at the end. It is cut between characters.
pub fn format_trajectory(trajectory: &StrMap<String>) -> (r: String)
    requires
        can_show(text_map(*trajectory)),
    ensures
        r@ == shown_trajectory(text_map(*trajectory)),
{
    let text = Json::Object(texts_to_object(trajectory)).to_text_pretty();
    if byte_len(text.as_str()) > 50000 {
        let mut r = byte_prefix(text.as_str(), 50000);
        r.append("\n... (truncated)");
        r
    } else {
        text
    }
}

/// Shows the trajectory at the end, unless it would be cut within a character.
pub fn try_format_trajectory(trajectory: &StrMap<String>) -> (r: Option<String>)
    ensures
        match r {
            Some(t) => can_show(text_map(*trajectory)) && t@ == shown_trajectory(
                text_map(*trajectory),
            ),
            None => !can_show(text_map(*trajectory)),
        },
{
    let text = Json::Object(texts_to_object(trajectory)).to_text_pretty();
    if can_cut_at(text.as_str(), 50000) {
        Some(format_trajectory(trajectory))
    } else {
        None
    }
}

/// A run of the agent.
#[derive(Debug)]
pub struct CodeActRun {
    pub input_kwargs: Example,
    pub trajectory: StrMap<String>,
    pub idx: usize,
    pub max_iters: usize,
    /// The agent said at this step that it is done.
    pub finished: bool,
    pub ended: bool,
}

/// What a run asks for next.
#[derive(Debug)]
pub enum CodeActStep {
    /// A call of the predictor of a step, with these inputs.
    Act(Example),
    /// A call of the predictor that takes the outputs from the trajectory, with
    /// these inputs.
    Extract(Example),
}

/// The inputs of the task as texts.
pub open spec fn input_texts(fields: Seq<FieldSpec>, e: ExampleSpec) -> ExampleSpec
    decreases fields.len(),
{
    if fields.len() == 0 {
        ExampleSpec::empty()
    } else {
        let front = input_texts(fields.drop_last(), e);
        let name = fields.last().name;
        if e.store.contains_key(name) {
            front.with(name, ValueSpec::Text(shown(e.store[name])))
        } else {
            front
        }
    }
}

/// The inputs of the task as texts.
pub(crate) fn take_inputs(signature: &Signature, args: &Example) -> (r: Example)
    ensures
        r@ == input_texts(signature@.inputs(), args@),
{
    let fields = signature.fields_copied(FieldType::Input);
    let ghost all = signature@.inputs();
    let mut r = Example::new();
    let mut i: usize = 0;
    proof {
        assert(all.take(0) =~= Seq::<FieldSpec>::empty());
    }
    while i < fields.len()
        invariant
            i <= fields.len(),
            field_list(fields@) == all,
            r@ == input_texts(all.take(i as int), args@),
        decreases fields.len() - i,
    {
        proof {
            assert(all.take(i + 1).drop_last() =~= all.take(i as int));
            assert(field_list(fields@)[i as int] == fields@[i as int]@);
            assert(all.take(i + 1).last() == fields@[i as int]@);
        }
        if let Some(v) = args.get(fields[i].name.as_str()) {
            r = r.field(fields[i].name.as_str(), v.to_text());
        }
        i = i + 1;
    }
    proof {
        assert(all.take(i as int) =~= all);
    }
    r
}

/// How many steps a run may have: as its inputs say, or else as it was set up.
pub open spec fn code_steps_allowed(args: ExampleSpec, default: usize) -> usize {
    if args.store.contains_key("max_iters"@) {
        match args.store["max_iters"@] {
            ValueSpec::Integer(n) => n as usize,
            ValueSpec::Text(t) => match parse_of(t, usize::MAX as nat) {
                Some(n) => n as usize,
                None => default,
            },
            _ => default,
        }
    } else {
        default
    }
}

/// The agent says that it is done.
pub open spec fn says_finished(p: ExampleSpec) -> bool {
    p.store.contains_key("finished"@) && match p.store["finished"@] {
        ValueSpec::Bool(b) => b,
        ValueSpec::Text(t) => ascii_lowered(t) == ascii_lowered("true"@) || ascii_lowered(t)
            == ascii_lowered("yes"@),
        _ => false,
    }
}

fn is_finished(p: &Prediction) -> (r: bool)
    ensures
        r == says_finished(p@.example),
{
    match p.get("finished") {
        Some(Value::Bool(b)) => *b,
        Some(Value::String(t)) => same_but_case(t.as_str(), "true") || same_but_case(
            t.as_str(),
            "yes",
        ),
        _ => false,
    }
}

impl CodeAct {
    /// Begins a run.
    pub fn begin(&self, args: &Example) -> (r: CodeActRun)
        ensures
            r.input_kwargs@ == input_texts(self.original_signature@.inputs(), args@),
            text_map(r.trajectory) == Map::<Seq<char>, Seq<char>>::empty(),
            r.idx == 0,
            r.max_iters == code_steps_allowed(args@, self.max_iters),
            !r.ended,
            !r.finished,
    {
        let max_iters: usize = match args.get("max_iters") {
            Some(Value::Integer(n)) => #[verifier::truncate]
            (*n as usize),
            Some(Value::String(s)) => match parse_size(s.as_str()) {
                Some(n) => n,
                None => self.max_iters,
            },
            _ => self.max_iters,
        };
        CodeActRun {
            input_kwargs: take_inputs(&self.original_signature, args),
            trajectory: no_entries(),
            idx: 0,
            max_iters,
            finished: false,
            ended: false,
        }
    }

    /// What a run asks for next: another step as long as there may be one, and
    /// then the outputs from the trajectory; nothing where the trajectory would be
    /// cut within a character.
    pub fn next(&self, run: &CodeActRun) -> (r: Option<CodeActStep>)
        ensures
            ({
                let t = text_map(run.trajectory);
                if run.idx < run.max_iters && !run.ended {
                    r matches Some(CodeActStep::Act(e)) && e@ == run.input_kwargs@.with(
                        "trajectory"@,
                        ValueSpec::Text(printed_json(JsonSpec::Object(texts_object(t)))),
                    )
                } else if can_show(t) {
                    r matches Some(CodeActStep::Extract(e)) && e@ == run.input_kwargs@.with(
                        "trajectory"@,
                        ValueSpec::Text(shown_trajectory(t)),
                    )
                } else {
                    r is None
                }
            }),
    {
        if run.idx < run.max_iters && !run.ended {
            let text = Json::Object(texts_to_object(&run.trajectory)).to_text();
            return Some(CodeActStep::Act(run.input_kwargs.clone().field("trajectory", text)));
        }
        match try_format_trajectory(&run.trajectory) {
            Some(text) => Some(
                CodeActStep::Extract(run.input_kwargs.clone().field("trajectory", text)),
            ),
            None => None,
        }
    }

    /// Takes the code of a step, which is to be run. Code that cannot be read ends
    /// the step.
    pub fn on_code(&self, run: &mut CodeActRun, code_data: &Prediction) -> (r: Option<String>)
        requires
            old(run).idx < old(run).max_iters,
        ensures
            ({
                let t = text_map(old(run).trajectory);
                let i = old(run).idx as nat;
                &&& final(run).input_kwargs == old(run).input_kwargs
                &&& final(run).max_iters == old(run).max_iters
                &&& final(run).ended == old(run).ended
                &&& match parsed_code(code_data@.example) {
                    Ok(code) => {
                        &&& r matches Some(c) && c@ == code
                        &&& text_map(final(run).trajectory) == t.insert(
                            step_key("generated_code_"@, i),
                            code,
                        )
                        &&& final(run).idx == old(run).idx
                        &&& final(run).finished == says_finished(code_data@.example)
                    },
                    Err(e) => {
                        &&& r is None
                        &&& text_map(final(run).trajectory) == t.insert(
                            step_key("observation_"@, i),
                            "Failed to parse the generated code: "@ + e,
                        )
                        &&& final(run).idx == old(run).idx + 1
                        &&& final(run).finished == old(run).finished
                    },
                }
            }),
    {
        let (code, error) = parse_code(code_data);
        match error {
            Some(e) => {
                let mut text = "Failed to parse the generated code: ".to_string();
                text.append(e.as_str());
                let key = key_of_step("observation_", run.idx);
                put_entry(&mut run.trajectory, key, text);
                run.idx = run.idx + 1;
                None
            },
            None => {
                let key = key_of_step("generated_code_", run.idx);
                put_entry(&mut run.trajectory, key, code.clone());
                run.finished = is_finished(code_data);
                Some(code)
            },
        }
    }

    /// Takes what running the code of a step gave. The run ends where the agent
    /// said that it is done.
    pub fn on_result(
        &self,
        run: &mut CodeActRun,
        result: std::result::Result<ExecutionResult, CodeInterpreterError>,
    )
        requires
            old(run).idx < old(run).max_iters,
        ensures
            ({
                let i = old(run).idx as nat;
                text_map(final(run).trajectory) == match ran(result) {
                    Ok(o) => text_map(old(run).trajectory).insert(
                        step_key("code_output_"@, i),
                        o,
                    ),
                    Err(e) => text_map(old(run).trajectory).insert(
                        step_key("observation_"@, i),
                        "Failed to execute the generated code: "@ + e,
                    ),
                }
            }),
            final(run).idx == old(run).idx + 1,
            final(run).ended == (old(run).ended || old(run).finished),
            final(run).finished == old(run).finished,
            final(run).input_kwargs == old(run).input_kwargs,
            final(run).max_iters == old(run).max_iters,
    {
        match run_output(result) {
            Ok(o) => {
                let key = key_of_step("code_output_", run.idx);
                put_entry(&mut run.trajectory, key, o);
            },
            Err(e) => {
                let mut text = "Failed to execute the generated code: ".to_string();
                text.append(e.as_str());
                let key = key_of_step("observation_", run.idx);
                put_entry(&mut run.trajectory, key, text);
            },
        }
        run.idx = run.idx + 1;
        if run.finished {
            run.ended = true;
        }
    }

    /// The prediction of a run: the outputs that were taken from the trajectory,
    /// and the trajectory itself.
    pub fn finish(&self, run: &CodeActRun, extract: &Prediction) -> (r: Prediction)
        ensures
            exists|v: ValueSpec| #[trigger]
                reads_as(v, JsonSpec::Object(texts_object(text_map(run.trajectory)))) && has_only(
                    r@,
                    extract@.example.store.insert("trajectory"@, v),
                ),
    {
        let mut fields = copy_values(extract.example.to_map());
        let v = Value::from_json(&Json::Object(texts_to_object(&run.trajectory)));
        let ghost x = v@;
        set_field(&mut fields, "trajectory", v);
        let r = Prediction::new(fields);
        proof {
            assert(reads_as(x, JsonSpec::Object(texts_object(text_map(run.trajectory)))));
            assert(has_only(r@, extract@.example.store.insert("trajectory"@, x)));
        }
        r
    }
}

impl CodeAct {
    /// The predictors of the module.
    pub fn named_predictors(&self) -> (r: Vec<(String, &Predict)>)
        ensures
            named(r@) == seq![
                ("code_act_predict"@, self.code_act_predict@),
                ("extractor"@, self.extractor@),
            ],
    {
        two_named(
            "code_act_predict",
            &self.code_act_predict,
            "extractor",
            self.extractor.predict(),
        )
    }

    /// A copy without the tools, which cannot be copied, and with a new extractor, whose
    /// traces go to a list of their own. The other predictor keeps its list.
    pub fn deep_copy(&self) -> (r: Self)
        ensures
            r.tools@.len() == 0,
            r.max_iters == self.max_iters,
            r.original_signature@ == self.original_signature@,
            r.code_act_predict@ == self.code_act_predict@,
            r.extractor@ == fresh_predict(self.extractor@.signature.prepend(reasoning_field())),
    {
        CodeAct {
            tools: Vec::new(),
            max_iters: self.max_iters,
            original_signature: self.original_signature.clone(),
            code_act_predict: self.code_act_predict.clone(),
            extractor: ChainOfThought::new(&self.extractor.predict().signature),
        }
    }
}

} // verus!
