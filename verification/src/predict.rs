//! One call of a model: what it is asked, what came of it, and the traces that
//! training keeps.

use crate::error::{DspyError, Result};
use crate::example::{
    copy_examples, example_list, example_readable, holds_values, law_example_is_read_back,
    lemma_example_list, reads_example, same_fields, writes_example, Example, ExampleSpec,
};
use crate::json::{
    empty_object, float_at_most, json_list, lemma_json_list, member_of, new_object, number_at_most,
    push_json, put, Json, JsonFloat, JsonSpec,
};
use crate::lm::{ConfigSpec, LMConfig};
use crate::prediction::{prediction_of, Prediction, PredictionSpec};
use crate::signature::{distinct, law_load_of_dump, sig_json, sig_of_json, SigSpec, Signature};
use crate::strmap::StrMap;
use crate::value::Value;
use vstd::prelude::*;

verus! {

/// What one call was given and what it gave.
#[derive(Debug)]
pub struct Trace {
    pub predictor_name: String,
    pub inputs: Example,
    pub outputs: Prediction,
}

/// What a trace says.
pub struct TraceSpec {
    pub predictor_name: Seq<char>,
    pub inputs: ExampleSpec,
    pub outputs: PredictionSpec,
}

impl View for Trace {
    type V = TraceSpec;

    open spec fn view(&self) -> TraceSpec {
        TraceSpec {
            predictor_name: self.predictor_name@,
            inputs: self.inputs@,
            outputs: self.outputs@,
        }
    }
}

impl Clone for Trace {
    fn clone(&self) -> (r: Self)
        ensures
            r@ == self@,
    {
        Trace {
            predictor_name: self.predictor_name.clone(),
            inputs: self.inputs.clone(),
            outputs: self.outputs.clone(),
        }
    }
}

/// What the traces of a list say.
pub open spec fn trace_list(v: Seq<Trace>) -> Seq<TraceSpec> {
    v.map_values(|t: Trace| t@)
}

/// Appends a trace to a list.
pub fn push_trace(v: &mut Vec<Trace>, t: Trace)
    ensures
        trace_list(final(v)@) == trace_list(old(v)@).push(t@),
{
    v.push(t);
    proof {
        assert(trace_list(v@) =~= trace_list(old(v)@).push(t@));
    }
}

/// A copy of a list of traces.
pub fn copy_traces(v: &Vec<Trace>) -> (r: Vec<Trace>)
    ensures
        trace_list(r@) == trace_list(v@),
{
    let ghost want = trace_list(v@);
    let mut r: Vec<Trace> = Vec::new();
    let mut i: usize = 0;
    while i < v.len()
        invariant
            i <= v.len(),
            want == trace_list(v@),
            trace_list(r@) == want.take(i as int),
        decreases v.len() - i,
    {
        push_trace(&mut r, v[i].clone());
        proof {
            assert(want.take(i + 1) =~= want.take(i as int).push(want[i as int]));
        }
        i = i + 1;
    }
    proof {
        assert(want.take(i as int) =~= want);
    }
    r
}

/// A predictor: its signature and its demonstrations. A predictor and all its copies
/// keep their traces in one list, which stands outside them: each function that reads
/// or changes the traces is handed that list.
#[derive(Debug)]
pub struct Predict {
    pub signature: Signature,
    pub demos: Vec<Example>,
    pub train: bool,
}

/// What a predictor says.
pub struct PredictSpec {
    pub signature: SigSpec,
    pub demos: Seq<ExampleSpec>,
    pub train: bool,
}

impl View for Predict {
    type V = PredictSpec;

    open spec fn view(&self) -> PredictSpec {
        PredictSpec {
            signature: self.signature@,
            demos: example_list(self.demos@),
            train: self.train,
        }
    }
}

/// The settings of a call: where several replies are asked for, a temperature that
/// is unset or at most 0.15 becomes 0.7.
pub open spec fn call_settings(c: ConfigSpec) -> ConfigSpec {
    let several = c.n matches Some(n) && n > 1;
    let low = match c.temperature {
        Some(t) => float_at_most(t, "0.15"@),
        None => true,
    };
    if several && low {
        ConfigSpec { temperature: Some("0.7"@), ..c }
    } else {
        c
    }
}

/// The settings of a call.
pub fn call_config(config: &LMConfig) -> (r: LMConfig)
    ensures
        r@ == call_settings(config@),
{
    let mut r = config.clone();
    let several = match config.n {
        Some(n) => n > 1,
        None => false,
    };
    if several {
        let low = match &config.temperature {
            Some(t) => number_at_most(t.as_text(), "0.15"),
            None => true,
        };
        if low {
            r.temperature = JsonFloat::parse("0.7");
        }
    }
    r
}

/// The model of a call: the predictor's own, or else that of the settings.
pub fn effective_lm<'a, L>(own: &'a Option<L>, settings: &'a Option<L>) -> (r: Result<&'a L>)
    ensures
        match (own, settings) {
            (Some(x), _) => r matches Ok(y) && *y == *x,
            (None, Some(x)) => r matches Ok(y) && *y == *x,
            (None, None) => r matches Err(DspyError::LMError(m)) && m@
                == "No LM configured. Use set_lm() or configure()."@,
        },
{
    match own {
        Some(x) => Ok(x),
        None => match settings {
            Some(x) => Ok(x),
            None => Err(
                DspyError::LMError(
                    "No LM configured. Use set_lm() or configure().".to_string(),
                ),
            ),
        },
    }
}

/// The adapter of a call: the predictor's own, or else that of the settings.
/// Nothing stands for the chat adapter.
pub fn effective_adapter<'a, A>(own: &'a Option<A>, settings: &'a Option<A>) -> (r: Option<&'a A>)
    ensures
        match (own, settings) {
            (Some(x), _) => r matches Some(y) && *y == *x,
            (None, Some(x)) => r matches Some(y) && *y == *x,
            (None, None) => r is None,
        },
{
    match own {
        Some(x) => Some(x),
        None => match settings {
            Some(x) => Some(x),
            None => None,
        },
    }
}

/// `j` is what a predictor says in JSON: its signature and its demonstrations.
pub open spec fn writes_predict(p: PredictSpec, j: JsonSpec) -> bool {
    exists|items: Seq<JsonSpec>|
        #![trigger predict_object(p, items)]
        j == predict_object(p, items) && items.len() == p.demos.len() && forall|i: int|
            0 <= i < items.len() ==> writes_example(p.demos[i], #[trigger] items[i])
}

/// The object of a predictor with given demonstrations.
pub open spec fn predict_object(p: PredictSpec, items: Seq<JsonSpec>) -> JsonSpec {
    JsonSpec::Object(
        empty_object().insert("signature"@, sig_json(p.signature)).insert(
            "demos"@,
            JsonSpec::Array(items),
        ),
    )
}

/// The examples are what the items read as that can be read.
pub open spec fn reads_demos(items: Seq<JsonSpec>, demos: Seq<ExampleSpec>) -> bool
    decreases items.len(),
{
    if items.len() == 0 {
        demos.len() == 0
    } else if example_readable(items.last()) {
        demos.len() > 0 && reads_example(demos.last(), items.last()) && reads_demos(
            items.drop_last(),
            demos.drop_last(),
        )
    } else {
        reads_demos(items.drop_last(), demos)
    }
}

/// The examples that the items read as; items that cannot be read are left out.
pub fn load_demos(items: &Vec<Json>) -> (r: Vec<Example>)
    ensures
        reads_demos(json_list(items@), example_list(r@)),
{
    let ghost all = json_list(items@);
    let mut r: Vec<Example> = Vec::new();
    let mut i: usize = 0;
    proof {
        lemma_json_list(items@);
        lemma_example_list(r@);
        assert(all.take(0) =~= Seq::<JsonSpec>::empty());
    }
    while i < items.len()
        invariant
            i <= items.len(),
            all.len() == items@.len(),
            forall|k: int| 0 <= k < items@.len() ==> #[trigger] all[k] == items@[k]@,
            reads_demos(all.take(i as int), example_list(r@)),
        decreases items.len() - i,
    {
        proof {
            assert(all.take(i + 1).drop_last() =~= all.take(i as int));
            assert(all.take(i + 1).last() == items@[i as int]@);
        }
        if let Some(e) = Example::from_json(&items[i]) {
            let ghost before = r@;
            r.push(e);
            proof {
                lemma_example_list(before);
                lemma_example_list(r@);
                assert(example_list(r@).drop_last() =~= example_list(before));
            }
        }
        i = i + 1;
    }
    proof {
        assert(all.take(i as int) =~= all);
    }
    r
}

/// The trace of a call.
pub open spec fn trace_of(inputs: ExampleSpec, outputs: PredictionSpec) -> TraceSpec {
    TraceSpec { predictor_name: Seq::empty(), inputs, outputs }
}

/// The traces after a call of a predictor: in training one more.
pub open spec fn traced(
    p: PredictSpec,
    inputs: ExampleSpec,
    outputs: PredictionSpec,
    traces: Seq<TraceSpec>,
) -> Seq<TraceSpec> {
    if p.train {
        traces.push(trace_of(inputs, outputs))
    } else {
        traces
    }
}

impl Predict {
    /// A predictor without demonstrations.
    pub fn new(signature: Signature) -> (r: Self)
        ensures
            r@ == (PredictSpec {
                signature: signature@,
                demos: Seq::empty(),
                train: false,
            }),
            r.signature == signature,
    {
        let r = Predict { signature, demos: Vec::new(), train: false };
        proof {
            lemma_example_list(r.demos@);
            assert(example_list(r.demos@) =~= Seq::<ExampleSpec>::empty());
        }
        r
    }

    /// Turns the keeping of traces on or off.
    pub fn set_train(&mut self, train: bool)
        ensures
            final(self)@ == (PredictSpec { train, ..old(self)@ }),
    {
        self.train = train;
    }

    /// Whether traces are kept.
    pub fn is_train(&self) -> (r: bool)
        ensures
            r == self@.train,
    {
        self.train
    }

    /// The traces of the predictor and its copies.
    pub fn get_traces(&self, traces: &Vec<Trace>) -> (r: Vec<Trace>)
        ensures
            trace_list(r@) == trace_list(traces@),
    {
        copy_traces(traces)
    }

    /// Forgets the traces of the predictor and its copies.
    pub fn clear_traces(&self, traces: &mut Vec<Trace>)
        ensures
            final(traces)@.len() == 0,
            trace_list(final(traces)@) == Seq::<TraceSpec>::empty(),
    {
        traces.clear();
        proof {
            assert(trace_list(traces@) =~= Seq::<TraceSpec>::empty());
        }
    }

    /// Forgets the demonstrations, and the traces of the predictor and its copies.
    pub fn reset(&mut self, traces: &mut Vec<Trace>)
        ensures
            final(self)@ == (PredictSpec { demos: Seq::empty(), ..old(self)@ }),
            final(traces)@.len() == 0,
            trace_list(final(traces)@) == Seq::<TraceSpec>::empty(),
    {
        self.demos = Vec::new();
        self.clear_traces(traces);
        proof {
            lemma_example_list(self.demos@);
            assert(example_list(self.demos@) =~= Seq::<ExampleSpec>::empty());
        }
    }

    /// The prediction that the completions of a call make. In training the call
    /// leaves a trace in the list of the predictor and its copies; the trace is also
    /// handed out.
    pub fn finish(
        &self,
        args: &Example,
        completions: Vec<StrMap<Value>>,
        traces: &mut Vec<Trace>,
    ) -> (r: (Prediction, Option<Trace>))
        ensures
            r.0@ == prediction_of(completions@, Some(self@.signature)),
            match r.1 {
                Some(t) => self@.train && t@ == trace_of(args@, r.0@),
                None => !self@.train,
            },
            trace_list(final(traces)@) == traced(self@, args@, r.0@, trace_list(old(traces)@)),
    {
        let prediction = Prediction::from_completions(completions, Some(&self.signature));
        if self.train {
            let name = String::new();
            let trace = Trace {
                predictor_name: name,
                inputs: args.clone(),
                outputs: prediction.clone(),
            };
            proof {
                assert(name@ =~= Seq::<char>::empty());
            }
            push_trace(traces, trace.clone());
            (prediction, Some(trace))
        } else {
            (prediction, None)
        }
    }

    /// The predictor in JSON: its signature and its demonstrations.
    pub fn dump_state(&self) -> (r: Json)
        ensures
            writes_predict(self@, r@),
            forall|i: int|
                0 <= i < self@.demos.len() ==> holds_values((#[trigger] self@.demos[i]).store),
    {
        let ghost demos = example_list(self.demos@);
        let mut items: Vec<Json> = Vec::new();
        let mut i: usize = 0;
        proof {
            lemma_example_list(self.demos@);
            lemma_json_list(items@);
        }
        while i < self.demos.len()
            invariant
                i <= self.demos.len(),
                demos.len() == self.demos@.len(),
                forall|k: int|
                    0 <= k < self.demos@.len() ==> #[trigger] demos[k] == self.demos@[k]@,
                json_list(items@).len() == i,
                forall|k: int|
                    0 <= k < i ==> writes_example(demos[k], #[trigger] json_list(items@)[k]),
                forall|k: int| 0 <= k < i ==> holds_values((#[trigger] demos[k]).store),
            decreases self.demos.len() - i,
        {
            let ghost before = json_list(items@);
            push_json(&mut items, self.demos[i].to_json());
            proof {
                assert forall|k: int| 0 <= k < i + 1 implies writes_example(
                    demos[k],
                    #[trigger] json_list(items@)[k],
                ) by {
                    if k < i {
                        assert(json_list(items@)[k] == before[k]);
                    }
                }
            }
            i = i + 1;
        }
        let ghost listed = json_list(items@);
        let mut m = new_object();
        put(&mut m, "signature", self.signature.dump_state());
        put(&mut m, "demos", Json::Array(items));
        let r = Json::Object(m);
        proof {
            assert(r@ == predict_object(self@, listed));
        }
        r
    }

    /// Takes over the signature and the demonstrations that a JSON value holds.
    /// Demonstrations that cannot be read are left out, and what the value does
    /// not hold stays as it is.
    pub fn load_state(&mut self, state: &Json) -> (r: Result<()>)
        ensures
            ({
                let sig = match member_of(state@, "signature"@) {
                    Some(j) => sig_of_json(j),
                    None => Ok(old(self)@.signature),
                };
                match sig {
                    Ok(s) => {
                        &&& r is Ok
                        &&& final(self)@ == (PredictSpec {
                            signature: s,
                            demos: final(self)@.demos,
                            ..old(self)@
                        })
                        &&& match member_of(state@, "demos"@) {
                            Some(JsonSpec::Array(items)) => reads_demos(
                                items,
                                final(self)@.demos,
                            ),
                            _ => final(self)@.demos == old(self)@.demos,
                        }
                    },
                    Err(e) => {
                        &&& r matches Err(DspyError::ParseError(m)) && m@ == e
                        &&& final(self)@ == old(self)@
                    },
                }
            }),
    {
        if let Some(j) = state.get("signature") {
            match Signature::load_state(j) {
                Ok(s) => {
                    self.signature = s;
                },
                Err(e) => {
                    return Err(e);
                },
            }
        }
        if let Some(Json::Array(items)) = state.get("demos") {
            self.demos = load_demos(items);
        }
        Ok(())
    }
}

/// What a list of named predictors says.
pub open spec fn named(v: Seq<(String, &Predict)>) -> Seq<(Seq<char>, PredictSpec)> {
    v.map_values(|x: (String, &Predict)| (x.0@, x.1@))
}

/// A list of one named predictor.
pub fn one_named<'a>(name: &str, p: &'a Predict) -> (r: Vec<(String, &'a Predict)>)
    ensures
        named(r@) == seq![(name@, p@)],
{
    let mut v: Vec<(String, &'a Predict)> = Vec::new();
    v.push((name.to_owned(), p));
    proof {
        assert(named(v@) =~= seq![(name@, p@)]);
    }
    v
}

/// A list of two named predictors.
pub fn two_named<'a>(name: &str, p: &'a Predict, other: &str, q: &'a Predict) -> (r: Vec<
    (String, &'a Predict),
>)
    ensures
        named(r@) == seq![(name@, p@), (other@, q@)],
{
    let mut v: Vec<(String, &'a Predict)> = Vec::new();
    v.push((name.to_owned(), p));
    v.push((other.to_owned(), q));
    proof {
        assert(named(v@) =~= seq![(name@, p@), (other@, q@)]);
    }
    v
}

impl Predict {
    /// The predictors of the module: itself.
    pub fn named_predictors(&self) -> (r: Vec<(String, &Predict)>)
        ensures
            named(r@) == seq![("self"@, self@)],
    {
        one_named("self", self)
    }

    /// A copy, which keeps its traces in the same list.
    pub fn deep_copy(&self) -> (r: Self)
        ensures
            r@ == self@,
    {
        self.clone()
    }
}

impl Clone for Predict {
    fn clone(&self) -> (r: Self)
        ensures
            r@ == self@,
    {
        Predict {
            signature: self.signature.clone(),
            demos: copy_examples(&self.demos),
            train: self.train,
        }
    }
}

/// A predictor and its copy record into one list: in training the list holds after a
/// call of each what it held before, then the trace of the one, then that of the other,
/// and out of training it stays as it is.
pub proof fn law_copies_share_their_traces(
    p: PredictSpec,
    copy: PredictSpec,
    traces: Seq<TraceSpec>,
    inputs: ExampleSpec,
    outputs: PredictionSpec,
    copy_inputs: ExampleSpec,
    copy_outputs: PredictionSpec,
)
    requires
        copy == p,
    ensures
        traced(copy, copy_inputs, copy_outputs, traced(p, inputs, outputs, traces)) == if p.train {
            traces + seq![trace_of(inputs, outputs), trace_of(copy_inputs, copy_outputs)]
        } else {
            traces
        },
{
    assert(traces.push(trace_of(inputs, outputs)).push(trace_of(copy_inputs, copy_outputs))
        =~= traces + seq![trace_of(inputs, outputs), trace_of(copy_inputs, copy_outputs)]);
}

proof fn lemma_demos_read(demos: Seq<ExampleSpec>, items: Seq<JsonSpec>, read: Seq<ExampleSpec>)
    requires
        items.len() == demos.len(),
        forall|i: int| 0 <= i < items.len() ==> writes_example(demos[i], #[trigger] items[i]),
        forall|i: int| 0 <= i < demos.len() ==> holds_values((#[trigger] demos[i]).store),
        reads_demos(items, read),
    ensures
        read.len() == demos.len(),
        forall|i: int|
            0 <= i < demos.len() ==> same_fields((#[trigger] read[i]).store, demos[i].store)
                && read[i].input_keys == demos[i].input_keys,
    decreases items.len(),
{
    if items.len() > 0 {
        let n = items.len() - 1;
        assert(writes_example(demos[n], items[n]));
        lemma_readable(demos[n], items[n]);
        law_example_is_read_back(demos[n], items[n], read.last());
        let d = demos.drop_last();
        let it = items.drop_last();
        assert forall|i: int| 0 <= i < it.len() implies writes_example(d[i], #[trigger] it[i]) by {
            assert(it[i] == items[i]);
        }
        assert forall|i: int| 0 <= i < d.len() implies holds_values((#[trigger] d[i]).store) by {
            assert(d[i] == demos[i]);
        }
        lemma_demos_read(d, it, read.drop_last());
        assert forall|i: int| 0 <= i < demos.len() implies same_fields(
            (#[trigger] read[i]).store,
            demos[i].store,
        ) && read[i].input_keys == demos[i].input_keys by {
            if i < n {
                assert(read.drop_last()[i] == read[i]);
            }
        }
    }
}

proof fn lemma_readable(e: ExampleSpec, j: JsonSpec)
    requires
        writes_example(e, j),
    ensures
        example_readable(j),
{
    reveal_strlit("store");
    reveal_strlit("input_keys");
    assert("store"@.len() == 5 && "input_keys"@.len() == 10);
    let keys = choose|keys: JsonSpec|
        #![trigger crate::example::input_keys_json(e, keys)]
        crate::example::input_keys_json(e, keys) && j == crate::example::example_object(e, keys);
}

/// A predictor is read back from JSON as what was written: its signature, and the
/// fields and input keys of its demonstrations.
pub proof fn law_predict_is_read_back(p: PredictSpec, j: JsonSpec, demos: Seq<ExampleSpec>)
    requires
        distinct(p.signature.fields),
        writes_predict(p, j),
        forall|i: int| 0 <= i < p.demos.len() ==> holds_values((#[trigger] p.demos[i]).store),
        member_of(j, "demos"@) matches Some(JsonSpec::Array(items)) && reads_demos(items, demos),
    ensures
        member_of(j, "signature"@) matches Some(x) && sig_of_json(x)
            == std::result::Result::<SigSpec, Seq<char>>::Ok(p.signature),
        demos.len() == p.demos.len(),
        forall|i: int|
            0 <= i < demos.len() ==> same_fields((#[trigger] demos[i]).store, p.demos[i].store)
                && demos[i].input_keys == p.demos[i].input_keys,
{
    reveal_strlit("signature");
    reveal_strlit("demos");
    assert("signature"@.len() == 9 && "demos"@.len() == 5);
    let items = choose|items: Seq<JsonSpec>|
        #![trigger predict_object(p, items)]
        j == predict_object(p, items) && items.len() == p.demos.len() && forall|i: int|
            0 <= i < items.len() ==> writes_example(p.demos[i], #[trigger] items[i]);
    assert(member_of(j, "demos"@) == Some(JsonSpec::Array(items)));
    assert(member_of(j, "signature"@) == Some(sig_json(p.signature)));
    law_load_of_dump(p.signature);
    lemma_demos_read(p.demos, items, demos);
}

} // verus!
