//! Training data from the traces of a program.

use crate::evaluate::result_list;
use crate::example::{Example, ExampleSpec};
use crate::json::JsonFloat;
use crate::lm::{copy_float, opt_float};
use crate::predict::{trace_list, Predict, PredictSpec, Trace, TraceSpec};
use crate::prediction::{Prediction, PredictionSpec};
use crate::rlm::fresh_predict;
use crate::signature::{
    field_list, input_field, output_field, push_field, upsert_all, FieldDef, FieldSpec, FieldType,
    SigSpec, Signature,
};
use vstd::prelude::*;

verus! {

/// A prediction that could not be read, with the text of the reply. The reward is
/// finite and held as JSON prints it.
#[derive(Debug)]
pub struct FailedPrediction {
    pub completion_text: String,
    pub format_reward: Option<JsonFloat>,
}

impl FailedPrediction {
    /// A prediction that could not be read.
    pub fn new(completion_text: &str, format_reward: Option<JsonFloat>) -> (r: Self)
        ensures
            r.completion_text@ == completion_text@,
            r.format_reward == format_reward,
    {
        FailedPrediction { completion_text: completion_text.to_owned(), format_reward }
    }
}

impl Clone for FailedPrediction {
    fn clone(&self) -> (r: Self)
        ensures
            r.completion_text@ == self.completion_text@,
            opt_float(r.format_reward) == opt_float(self.format_reward),
    {
        FailedPrediction {
            completion_text: self.completion_text.clone(),
            format_reward: copy_float(&self.format_reward),
        }
    }
}

/// What one predictor was given and what it gave.
#[derive(Debug)]
pub struct TraceEntry {
    pub predictor: Predict,
    pub inputs: Example,
    pub outputs: Prediction,
}

/// What an entry says.
pub struct TraceEntrySpec {
    pub predictor: PredictSpec,
    pub inputs: ExampleSpec,
    pub outputs: PredictionSpec,
}

impl View for TraceEntry {
    type V = TraceEntrySpec;

    open spec fn view(&self) -> TraceEntrySpec {
        TraceEntrySpec {
            predictor: self.predictor@,
            inputs: self.inputs@,
            outputs: self.outputs@,
        }
    }
}

/// What there is of an example. `S` is the type of a score.
#[derive(Debug)]
pub struct TraceData<S> {
    pub example_ind: usize,
    pub example: Example,
    pub prediction: Prediction,
    pub trace: Vec<TraceEntry>,
    pub score: Option<S>,
}

/// What there is to say of an example.
pub struct TraceDataSpec<S> {
    pub example_ind: int,
    pub example: ExampleSpec,
    pub prediction: PredictionSpec,
    pub trace: Seq<TraceEntrySpec>,
    pub score: Option<S>,
}

/// What entries say.
pub open spec fn entry_specs(v: Seq<TraceEntry>) -> Seq<TraceEntrySpec> {
    v.map_values(|e: TraceEntry| e@)
}

impl<S> View for TraceData<S> {
    type V = TraceDataSpec<S>;

    open spec fn view(&self) -> TraceDataSpec<S> {
        TraceDataSpec {
            example_ind: self.example_ind as int,
            example: self.example@,
            prediction: self.prediction@,
            trace: entry_specs(self.trace@),
            score: self.score,
        }
    }
}

/// The predictor that stands in an entry: it takes `q` and gives `a`.
pub open spec fn entry_predictor() -> PredictSpec {
    fresh_predict(
        SigSpec {
            instructions: Seq::empty(),
            fields: upsert_all(
                Seq::empty(),
                seq![
                    FieldSpec::bare("q"@, FieldType::Input),
                    FieldSpec::bare("a"@, FieldType::Output),
                ],
            ),
        },
    )
}

/// The entry of a trace.
pub open spec fn entry_of(t: TraceSpec) -> TraceEntrySpec {
    TraceEntrySpec { predictor: entry_predictor(), inputs: t.inputs, outputs: t.outputs }
}

/// Where the traces of an example begin: each example takes as many as there are
/// predictors, as long as there are any.
pub open spec fn trace_start(i: nat, predictors: nat, total: nat) -> nat {
    if i * predictors <= total {
        i * predictors
    } else {
        total
    }
}

/// What there is to say of the example at `i`.
pub open spec fn trace_data_of<S>(
    results: Seq<(ExampleSpec, PredictionSpec, S)>,
    traces: Seq<TraceSpec>,
    predictors: nat,
    scored: bool,
    i: int,
) -> TraceDataSpec<S> {
    TraceDataSpec {
        example_ind: i,
        example: results[i].0,
        prediction: results[i].1,
        trace: traces.subrange(
            trace_start(i as nat, predictors, traces.len()) as int,
            trace_start((i + 1) as nat, predictors, traces.len()) as int,
        ).map_values(|t: TraceSpec| entry_of(t)),
        score: if scored {
            Some(results[i].2)
        } else {
            None
        },
    }
}

/// How many errors end the evaluation that collects traces: ten for each example.
pub fn bootstrap_max_errors(len: usize) -> (r: usize)
    requires
        len * 10 <= usize::MAX,
    ensures
        r == len * 10,
{
    len * 10
}

fn stand_in() -> (r: Predict)
    ensures
        r@ == entry_predictor(),
{
    let mut fields: Vec<FieldDef> = Vec::new();
    push_field(&mut fields, input_field("q"));
    push_field(&mut fields, output_field("a"));
    proof {
        assert(field_list(fields@) =~= seq![
            FieldSpec::bare("q"@, FieldType::Input),
            FieldSpec::bare("a"@, FieldType::Output),
        ]);
        reveal_strlit("");
        assert(""@ =~= Seq::<char>::empty());
    }
    Predict::new(Signature::new(fields, ""))
}

proof fn lemma_next_start(i: nat, predictors: nat, total: nat)
    ensures
        trace_start(i, predictors, total) <= trace_start(i + 1, predictors, total) <= total,
        trace_start(i + 1, predictors, total) <= trace_start(i, predictors, total) + predictors,
        trace_start(i + 1, predictors, total) == total || trace_start(i + 1, predictors, total)
            == trace_start(i, predictors, total) + predictors,
{
    assert((i + 1) * predictors == i * predictors + predictors) by (nonlinear_arith);
}

/// What there is to say of each example of an evaluation, with the traces that the
/// predictors left.
pub fn collect_trace_data<S>(
    results: Vec<(Example, Prediction, S)>,
    traces: &Vec<Trace>,
    num_predictors: usize,
    scored: bool,
) -> (r: Vec<TraceData<S>>)
    ensures
        r@.len() == results@.len(),
        forall|i: int|
            0 <= i < r@.len() ==> (#[trigger] r@[i])@ == trace_data_of(
                result_list(results@),
                trace_list(traces@),
                num_predictors as nat,
                scored,
                i,
            ),
{
    let ghost all = results@;
    let ghost listed = trace_list(traces@);
    let ghost np = num_predictors as nat;
    let total: usize = traces.len();
    let mut data: Vec<TraceData<S>> = Vec::new();
    let mut cursor: usize = 0;
    let mut index: usize = 0;
    proof {
        assert(0 * np == 0) by (nonlinear_arith);
    }
    let len: usize = results.len();
    for x in it: results
        invariant
            it.seq() == all,
            len == all.len(),
            total == traces@.len(),
            listed == trace_list(traces@),
            np == num_predictors,
            index == it.index(),
            data@.len() == index,
            cursor == trace_start(index as nat, np, total as nat),
            forall|i: int|
                0 <= i < data@.len() ==> (#[trigger] data@[i])@ == trace_data_of(
                    result_list(all),
                    listed,
                    np,
                    scored,
                    i,
                ),
    {
        proof {
            lemma_next_start(index as nat, np, total as nat);
        }
        let ghost start = cursor;
        let ghost end = trace_start((index + 1) as nat, np, total as nat);
        let mut trace: Vec<TraceEntry> = Vec::new();
        let mut k: usize = 0;
        proof {
            assert(entry_specs(trace@) =~= listed.subrange(start as int, start as int).map_values(
                |t: TraceSpec| entry_of(t),
            ));
        }
        while k < num_predictors && cursor < total
            invariant
                total == traces@.len(),
                listed == trace_list(traces@),
                k <= num_predictors,
                start + k == cursor,
                cursor <= total,
                entry_specs(trace@) == listed.subrange(start as int, cursor as int).map_values(
                    |t: TraceSpec| entry_of(t),
                ),
            decreases num_predictors - k,
        {
            let ghost before = entry_specs(trace@);
            trace.push(
                TraceEntry {
                    predictor: stand_in(),
                    inputs: traces[cursor].inputs.clone(),
                    outputs: traces[cursor].outputs.clone(),
                },
            );
            proof {
                let more = listed.subrange(start as int, cursor + 1);
                assert(more =~= listed.subrange(start as int, cursor as int).push(
                    listed[cursor as int],
                ));
                assert(listed[cursor as int] == traces@[cursor as int]@);
                assert(trace@.last()@ == entry_of(listed[cursor as int]));
                assert(entry_specs(trace@) =~= before.push(entry_of(listed[cursor as int])));
                assert(before =~= listed.subrange(start as int, cursor as int).map_values(
                    |t: TraceSpec| entry_of(t),
                ));
                assert(entry_specs(trace@) =~= more.map_values(|t: TraceSpec| entry_of(t)));
            }
            cursor = cursor + 1;
            k = k + 1;
        }
        proof {
            assert(cursor == end);
            assert(result_list(all)[index as int] == (x.0@, x.1@, x.2));
        }
        let (example, prediction, score) = x;
        data.push(
            TraceData {
                example_ind: index,
                example,
                prediction,
                trace,
                score: if scored {
                    Some(score)
                } else {
                    None
                },
            },
        );
        proof {
            assert(index < len);
        }
        index = index + 1;
    }
    data
}

} // verus!
