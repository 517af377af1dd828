//! A program of thought: a model writes code that solves a task, and writes it again
//! as long as running it fails.

use crate::adapter::{tick_list, ticked_list};
use crate::chain_of_thought::{reasoning_field, ChainOfThought};
use crate::code_act::{input_texts, push_fields, take_inputs};
use crate::error::{is_other_error, DspyError};
use crate::example::{Example, ExampleSpec};
use crate::generated_code::{
    code_block, code_block_of, is_blank, ran, raw_code, raw_code_of, run_output,
};
use crate::interpreter::{CodeInterpreterError, ExecutionResult};
use crate::predict::{named, two_named, Predict};
use crate::prediction::{field_text, Prediction};
use crate::rlm::fresh_predict;
use crate::signature::{
    field_list, input_field, names, output_field, push_field, upsert_all, FieldSpec, FieldType,
    SigSpec, Signature,
};
use crate::text::{
    chars_of, lines, lines_of, push_text, slice_text, texts, trim, trim_of, trim_start,
    trim_start_of,
};
use crate::unicode::{word_char, word_flags};
use crate::value::ValueSpec;
use vstd::prelude::*;

verus! {

// ---------------------------------------------------------------------------
// Code
// ---------------------------------------------------------------------------

/// How often a character stands in a text.
pub open spec fn count_of(s: Seq<char>, c: char) -> nat
    decreases s.len(),
{
    if s.len() == 0 {
        0
    } else if s.last() == c {
        count_of(s.drop_last(), c) + 1
    } else {
        count_of(s.drop_last(), c)
    }
}

/// How many word characters a text begins with.
pub open spec fn word_len(s: Seq<char>) -> nat
    decreases s.len(),
{
    if s.len() > 0 && word_char(s[0]) {
        word_len(s.skip(1)) + 1
    } else {
        0
    }
}

/// The name that a line assigns to: a word before an equals sign.
pub open spec fn assigned_name(line: Seq<char>) -> Option<Seq<char>> {
    let n = word_len(line) as int;
    let rest = trim_start_of(line.skip(n));
    if n > 0 && rest.len() > 0 && rest[0] == '=' {
        Some(line.take(n))
    } else {
        None
    }
}

/// Code that shows its result: where the last of several lines is an assignment,
/// the name is added as a line of its own.
pub open spec fn with_result(block: Seq<char>) -> Seq<char> {
    let all = lines_of(block);
    if all.len() > 1 {
        match assigned_name(trim_of(all.last())) {
            Some(name) => block + "\n"@ + name,
            None => block,
        }
    } else {
        block
    }
}

/// The code that a prediction has, or what is wrong with it.
pub open spec fn program_of(p: ExampleSpec) -> std::result::Result<Seq<char>, Seq<char>> {
    let block = code_block_of(raw_code_of(field_text(p, "generated_code"@)));
    if trim_of(block).len() == 0 {
        Err("Error: Empty code after parsing."@)
    } else if count_of(block, '\n') == 0 && count_of(block, '=') > 1 {
        Err("Error: Code format is not correct."@)
    } else {
        Ok(with_result(block))
    }
}

fn count_char(v: &Vec<char>, c: char) -> (r: usize)
    ensures
        r == count_of(v@, c),
{
    let mut r: usize = 0;
    let mut i: usize = 0;
    proof {
        assert(v@.take(0) =~= Seq::<char>::empty());
    }
    while i < v.len()
        invariant
            i <= v.len(),
            r <= i,
            r == count_of(v@.take(i as int), c),
        decreases v.len() - i,
    {
        proof {
            assert(v@.take(i + 1).drop_last() =~= v@.take(i as int));
            assert(v@.take(i + 1).last() == v@[i as int]);
        }
        if v[i] == c {
            r = r + 1;
        }
        i = i + 1;
    }
    proof {
        assert(v@.take(i as int) =~= v@);
    }
    r
}

fn find_assigned_name(line: &str) -> (r: Option<String>)
    ensures
        match r {
            Some(n) => assigned_name(line@) == Some(n@),
            None => assigned_name(line@) is None,
        },
{
    let v = chars_of(line);
    let flags = word_flags(line);
    let len: usize = v.len();
    let mut n: usize = 0;
    proof {
        assert(v@.skip(0) =~= v@);
    }
    while n < len && flags[n]
        invariant
            n <= len,
            len == v@.len(),
            v@ == line@,
            flags@.len() == len,
            forall|k: int| 0 <= k < len ==> #[trigger] flags@[k] == word_char(v@[k]),
            word_len(line@) == n + word_len(line@.skip(n as int)),
        decreases len - n,
    {
        proof {
            let rest = line@.skip(n as int);
            assert(rest[0] == v@[n as int]);
            assert(rest.skip(1) =~= line@.skip(n + 1));
        }
        n = n + 1;
    }
    proof {
        let rest = line@.skip(n as int);
        if n < len {
            assert(rest[0] == v@[n as int]);
        }
        assert(word_len(rest) == 0);
    }
    if n == 0 {
        return None;
    }
    let after = slice_text(&v, n, len);
    let name = slice_text(&v, 0, n);
    proof {
        assert(after@ =~= line@.skip(n as int));
        assert(name@ =~= line@.take(n as int));
    }
    let rest = chars_of(trim_start(after.as_str()).as_str());
    if rest.len() > 0 && rest[0] == '=' {
        Some(name)
    } else {
        None
    }
}

// ---------------------------------------------------------------------------
// Signatures
// ---------------------------------------------------------------------------

/// What a predictor of the program is for.
#[derive(Debug, Clone, Copy, PartialEq, Eq, Structural)]
pub enum ProgramMode {
    Generate,
    Regenerate,
    Answer,
}

/// The field for code that a model writes.
pub open spec fn generated_code_field() -> FieldSpec {
    FieldSpec::bare("generated_code"@, FieldType::Output).pre("Code:"@).desc(
        "python code that answers the question"@,
    )
}

/// The fields of a predictor.
pub open spec fn program_fields(s: SigSpec, mode: ProgramMode) -> Seq<FieldSpec> {
    match mode {
        ProgramMode::Generate => s.inputs().push(generated_code_field()),
        ProgramMode::Regenerate => s.inputs() + seq![
            FieldSpec::bare("previous_code"@, FieldType::Input).pre("Previous Code:"@).desc(
                "previously-generated python code that errored"@,
            ),
            FieldSpec::bare("error"@, FieldType::Input).pre("Error:"@).desc(
                "error message from previously-generated python code"@,
            ),
            generated_code_field(),
        ],
        ProgramMode::Answer => s.inputs() + seq![
            FieldSpec::bare("final_generated_code"@, FieldType::Input).pre("Code:"@).desc(
                "python code that answers the question"@,
            ),
            FieldSpec::bare("code_output"@, FieldType::Input).pre("Code Output:"@).desc(
                "output of previously-generated python code"@,
            ),
        ] + s.outputs(),
    }
}

/// The names of the inputs and outputs of a predictor.
pub open spec fn program_names(s: SigSpec, mode: ProgramMode) -> (Seq<Seq<char>>, Seq<Seq<char>>) {
    match mode {
        ProgramMode::Generate => (names(s.inputs()), seq!["generated_code"@]),
        ProgramMode::Regenerate => (
            names(s.inputs()) + seq!["previous_code"@, "error"@],
            seq!["generated_code"@],
        ),
        ProgramMode::Answer => (
            names(s.inputs()) + seq!["final_generated_code"@, "code_output"@],
            names(s.outputs()),
        ),
    }
}

/// The instructions of a predictor.
pub open spec fn program_instruction(s: SigSpec, mode: ProgramMode) -> Seq<char> {
    let inputs = ticked_list(program_names(s, mode).0);
    let outputs = ticked_list(program_names(s, mode).1);
    match mode {
        ProgramMode::Generate => "You will be given "@ + inputs + " and you will respond with "@
            + outputs
            + ".\nGenerating executable Python code that programmatically computes the correct "@
            + outputs
            + ".\nAfter you're done with the computation and think you have the final output, make sure to submit your output by calling the preloaded function `SUBMIT()`.\nYou must structure your output in a dict, like {\"field_a\": value_a, ...}, with the correct value mapping for the field(s): "@
            + ticked_list(names(s.outputs())) + "."@,
        ProgramMode::Regenerate => "You are given "@ + inputs
            + " due to an error in previous code.\nYour task is to correct the error and provide the new `generated_code`."@,
        ProgramMode::Answer => "Given the final code "@ + inputs + ", provide the final "@
            + outputs + "."@,
    }
}

/// The signature of a predictor.
pub open spec fn program_sig(s: SigSpec, mode: ProgramMode) -> SigSpec {
    SigSpec {
        instructions: program_instruction(s, mode),
        fields: upsert_all(Seq::empty(), program_fields(s, mode)),
    }
}

/// The names of the inputs and outputs of a predictor.
pub fn build_signature_field_names(original: &Signature, mode: ProgramMode) -> (r: (
    Vec<String>,
    Vec<String>,
))
    ensures
        texts(r.0@) == program_names(original@, mode).0,
        texts(r.1@) == program_names(original@, mode).1,
{
    let mut inputs = original.input_names();
    let mut outputs: Vec<String> = Vec::new();
    match mode {
        ProgramMode::Generate => {
            push_text(&mut outputs, "generated_code".to_string());
        },
        ProgramMode::Regenerate => {
            push_text(&mut inputs, "previous_code".to_string());
            push_text(&mut inputs, "error".to_string());
            push_text(&mut outputs, "generated_code".to_string());
        },
        ProgramMode::Answer => {
            push_text(&mut inputs, "final_generated_code".to_string());
            push_text(&mut inputs, "code_output".to_string());
            outputs = original.output_names();
        },
    }
    proof {
        assert(texts(inputs@) =~= program_names(original@, mode).0);
        assert(texts(outputs@) =~= program_names(original@, mode).1);
    }
    (inputs, outputs)
}

/// The instructions of a predictor.
pub fn build_instruction(original: &Signature, mode: ProgramMode) -> (r: String)
    ensures
        r@ == program_instruction(original@, mode),
{
    let (input_names, output_names) = build_signature_field_names(original, mode);
    let inputs = tick_list(&input_names);
    let outputs = tick_list(&output_names);
    match mode {
        ProgramMode::Generate => {
            let mut r = "You will be given ".to_string();
            r.append(inputs.as_str());
            r.append(" and you will respond with ");
            r.append(outputs.as_str());
            r.append(
                ".\nGenerating executable Python code that programmatically computes the correct ",
            );
            r.append(outputs.as_str());
            r.append(
                ".\nAfter you're done with the computation and think you have the final output, make sure to submit your output by calling the preloaded function `SUBMIT()`.\nYou must structure your output in a dict, like {\"field_a\": value_a, ...}, with the correct value mapping for the field(s): ",
            );
            r.append(tick_list(&original.output_names()).as_str());
            r.append(".");
            r
        },
        ProgramMode::Regenerate => {
            let mut r = "You are given ".to_string();
            r.append(inputs.as_str());
            r.append(
                " due to an error in previous code.\nYour task is to correct the error and provide the new `generated_code`.",
            );
            r
        },
        ProgramMode::Answer => {
            let mut r = "Given the final code ".to_string();
            r.append(inputs.as_str());
            r.append(", provide the final ");
            r.append(outputs.as_str());
            r.append(".");
            r
        },
    }
}

/// The signature of a predictor.
pub fn build_signature(original: &Signature, mode: ProgramMode) -> (r: Signature)
    ensures
        r@ == program_sig(original@, mode),
{
    let mut fields = original.fields_copied(FieldType::Input);
    match mode {
        ProgramMode::Generate => {
            push_field(
                &mut fields,
                output_field("generated_code").with_prefix("Code:").with_desc(
                    "python code that answers the question",
                ),
            );
        },
        ProgramMode::Regenerate => {
            push_field(
                &mut fields,
                input_field("previous_code").with_prefix("Previous Code:").with_desc(
                    "previously-generated python code that errored",
                ),
            );
            push_field(
                &mut fields,
                input_field("error").with_prefix("Error:").with_desc(
                    "error message from previously-generated python code",
                ),
            );
            push_field(
                &mut fields,
                output_field("generated_code").with_prefix("Code:").with_desc(
                    "python code that answers the question",
                ),
            );
        },
        ProgramMode::Answer => {
            push_field(
                &mut fields,
                input_field("final_generated_code").with_prefix("Code:").with_desc(
                    "python code that answers the question",
                ),
            );
            push_field(
                &mut fields,
                input_field("code_output").with_prefix("Code Output:").with_desc(
                    "output of previously-generated python code",
                ),
            );
            push_fields(&mut fields, original.fields_copied(FieldType::Output));
        },
    }
    proof {
        assert(field_list(fields@) =~= program_fields(original@, mode));
    }
    let instructions = build_instruction(original, mode);
    Signature::new(fields, instructions.as_str())
}

// ---------------------------------------------------------------------------
// Runs
// ---------------------------------------------------------------------------

/// A program of thought.
#[derive(Debug)]
pub struct ProgramOfThought {
    pub max_iters: usize,
    pub signature: Signature,
    pub code_generate: ChainOfThought,
    pub code_regenerate: ChainOfThought,
    pub generate_output: ChainOfThought,
}

/// A run of the program.
#[derive(Debug)]
pub struct ProgramRun {
    pub input_kwargs: Example,
    pub code: String,
    /// Which attempt at the code this is, counted from one.
    pub hop: usize,
}

/// What a run asks for next.
#[derive(Debug)]
pub enum ProgramStep {
    /// The code is to be run.
    Execute(String),
    /// A call of the predictor that writes the code again, with these inputs.
    Regenerate(Example),
    /// A call of the predictor that gives the outputs, with these inputs.
    Answer(Example),
    /// The run fails.
    Fail(DspyError),
}

/// What is asked for after a failure: another attempt, as long as there may be one.
pub open spec fn after_failure(
    step: ProgramStep,
    before: ProgramRun,
    after: ProgramRun,
    max: nat,
    code: Seq<char>,
    error: Seq<char>,
) -> bool {
    if before.hop >= max {
        &&& step matches ProgramStep::Fail(e) && is_other_error(
            e,
            "Max hops reached. Failed to run ProgramOfThought: "@ + error,
        )
        &&& after.hop == before.hop
    } else {
        &&& step matches ProgramStep::Regenerate(e) && e@ == before.input_kwargs@.with(
            "previous_code"@,
            ValueSpec::Text(code),
        ).with("error"@, ValueSpec::Text(error))
        &&& after.hop == before.hop + 1
    }
}

impl ProgramOfThought {
    /// A program for a task. Where it is not given, there are 3 attempts.
    pub fn new(signature: Signature, max_iters: Option<usize>) -> (r: Self)
        ensures
            r.max_iters == match max_iters {
                Some(n) => n,
                None => 3,
            },
            r.signature == signature,
            r.code_generate@ == fresh_predict(
                program_sig(signature@, ProgramMode::Generate).prepend(reasoning_field()),
            ),
            r.code_regenerate@ == fresh_predict(
                program_sig(signature@, ProgramMode::Regenerate).prepend(reasoning_field()),
            ),
            r.generate_output@ == fresh_predict(
                program_sig(signature@, ProgramMode::Answer).prepend(reasoning_field()),
            ),
    {
        let generate = build_signature(&signature, ProgramMode::Generate);
        let regenerate = build_signature(&signature, ProgramMode::Regenerate);
        let answer = build_signature(&signature, ProgramMode::Answer);
        ProgramOfThought {
            max_iters: match max_iters {
                Some(n) => n,
                None => 3,
            },
            signature,
            code_generate: ChainOfThought::new(&generate),
            code_regenerate: ChainOfThought::new(&regenerate),
            generate_output: ChainOfThought::new(&answer),
        }
    }

    /// Begins a run. The predictor that writes the code is called with the inputs
    /// of the run.
    pub fn begin(&self, args: &Example) -> (r: ProgramRun)
        ensures
            r.input_kwargs@ == input_texts(self.signature@.inputs(), args@),
            r.code@ == Seq::<char>::empty(),
            r.hop == 1,
    {
        let code = String::new();
        proof {
            assert(code@ =~= Seq::<char>::empty());
        }
        ProgramRun { input_kwargs: take_inputs(&self.signature, args), code, hop: 1 }
    }

    /// The code that a prediction has. Where something is wrong with it, the second
    /// part says so, and the first is the part of the reply that may hold code.
    pub fn parse_code(code_data: &Prediction) -> (r: (String, Option<String>))
        ensures
            match program_of(code_data@.example) {
                Ok(code) => r.0@ == code && r.1 is None,
                Err(e) => r.0@ == raw_code_of(field_text(code_data@.example, "generated_code"@)) && (
                r.1 matches Some(m) && m@ == e),
            },
    {
        let raw = raw_code(code_data.text("generated_code").as_str());
        let block = code_block(raw.as_str());
        if is_blank(block.as_str()) {
            return (raw, Some("Error: Empty code after parsing.".to_string()));
        }
        let v = chars_of(block.as_str());
        if count_char(&v, '\n') == 0 && count_char(&v, '=') > 1 {
            return (raw, Some("Error: Code format is not correct.".to_string()));
        }
        let all = lines(block.as_str());
        if all.len() > 1 {
            let last = trim(all[all.len() - 1].as_str());
            proof {
                assert(texts(all@).last() == all@[all@.len() - 1]@);
            }
            if let Some(name) = find_assigned_name(last.as_str()) {
                let mut code = block;
                code.append("\n");
                code.append(name.as_str());
                return (code, None);
            }
        }
        (block, None)
    }

    fn fail(&self, run: &mut ProgramRun, error: String) -> (r: ProgramStep)
        ensures
            after_failure(
                r,
                *old(run),
                *final(run),
                self.max_iters as nat,
                old(run).code@,
                error@,
            ),
            final(run).input_kwargs == old(run).input_kwargs,
            final(run).code == old(run).code,
    {
        if run.hop >= self.max_iters {
            let mut m = "Max hops reached. Failed to run ProgramOfThought: ".to_string();
            m.append(error.as_str());
            return ProgramStep::Fail(DspyError::Other(m));
        }
        run.hop = run.hop + 1;
        ProgramStep::Regenerate(
            run.input_kwargs.clone().field("previous_code", run.code.clone()).field(
                "error",
                error,
            ),
        )
    }

    /// Takes the code that a model wrote.
    pub fn on_code(&self, run: &mut ProgramRun, code_data: &Prediction) -> (r: ProgramStep)
        ensures
            final(run).input_kwargs == old(run).input_kwargs,
            match program_of(code_data@.example) {
                Ok(code) => {
                    &&& r matches ProgramStep::Execute(c) && c@ == code
                    &&& final(run).code@ == code
                    &&& final(run).hop == old(run).hop
                },
                Err(e) => {
                    let raw = raw_code_of(field_text(code_data@.example, "generated_code"@));
                    &&& final(run).code@ == raw
                    &&& after_failure(
                        r,
                        *old(run),
                        *final(run),
                        self.max_iters as nat,
                        raw,
                        e,
                    )
                },
            },
    {
        let (code, error) = ProgramOfThought::parse_code(code_data);
        run.code = code;
        match error {
            Some(e) => self.fail(run, e),
            None => ProgramStep::Execute(run.code.clone()),
        }
    }

    /// Takes what running the code gave.
    pub fn on_result(
        &self,
        run: &mut ProgramRun,
        result: std::result::Result<ExecutionResult, CodeInterpreterError>,
    ) -> (r: ProgramStep)
        ensures
            final(run).input_kwargs == old(run).input_kwargs,
            final(run).code == old(run).code,
            match ran(result) {
                Ok(o) => {
                    &&& r matches ProgramStep::Answer(e) && e@ == old(run).input_kwargs@.with(
                        "final_generated_code"@,
                        ValueSpec::Text(old(run).code@),
                    ).with("code_output"@, ValueSpec::Text(o))
                    &&& final(run).hop == old(run).hop
                },
                Err(e) => after_failure(
                    r,
                    *old(run),
                    *final(run),
                    self.max_iters as nat,
                    old(run).code@,
                    e,
                ),
            },
    {
        match run_output(result) {
            Ok(o) => ProgramStep::Answer(
                run.input_kwargs.clone().field("final_generated_code", run.code.clone()).field(
                    "code_output",
                    o,
                ),
            ),
            Err(e) => self.fail(run, e),
        }
    }
}

impl ProgramOfThought {
    /// The predictors of the module.
    pub fn named_predictors(&self) -> (r: Vec<(String, &Predict)>)
        ensures
            named(r@) == seq![
                ("code_generate.predict"@, self.code_generate@),
                ("code_regenerate.predict"@, self.code_regenerate@),
                ("generate_output.predict"@, self.generate_output@),
            ],
    {
        let mut v = two_named(
            "code_generate.predict",
            self.code_generate.predict(),
            "code_regenerate.predict",
            self.code_regenerate.predict(),
        );
        let ghost two = named(v@);
        v.push(("generate_output.predict".to_string(), self.generate_output.predict()));
        proof {
            assert(named(v@) =~= two.push(("generate_output.predict"@, self.generate_output@)));
            assert(named(v@) =~= seq![
                ("code_generate.predict"@, self.code_generate@),
                ("code_regenerate.predict"@, self.code_regenerate@),
                ("generate_output.predict"@, self.generate_output@),
            ]);
        }
        v
    }

    /// A copy with predictors that are new, made from the signatures of the old ones.
    /// Their traces go to lists of their own.
    pub fn deep_copy(&self) -> (r: Self)
        ensures
            r.max_iters == self.max_iters,
            r.signature@ == self.signature@,
            r.code_generate@ == fresh_predict(
                self.code_generate@.signature.prepend(reasoning_field()),
            ),
            r.code_regenerate@ == fresh_predict(
                self.code_regenerate@.signature.prepend(reasoning_field()),
            ),
            r.generate_output@ == fresh_predict(
                self.generate_output@.signature.prepend(reasoning_field()),
            ),
    {
        ProgramOfThought {
            max_iters: self.max_iters,
            signature: self.signature.clone(),
            code_generate: ChainOfThought::new(&self.code_generate.predict().signature),
            code_regenerate: ChainOfThought::new(&self.code_regenerate.predict().signature),
            generate_output: ChainOfThought::new(&self.generate_output.predict().signature),
        }
    }
}

} // verus!
