//! Chain of thought: a predictor that is asked for its reasoning first.

use crate::error::{DspyError, Result};
use crate::json::{member_of, Json, JsonSpec};
use crate::predict::{named, one_named, reads_demos, writes_predict, Predict, PredictSpec};
use crate::signature::{
    distinct, law_prepended_output_comes_first, names, output_field, sig_of_json, FieldSpec,
    FieldType, SigSpec, Signature,
};
use vstd::prelude::*;

verus! {

/// A predictor with an output field for the reasoning before the others.
#[derive(Debug)]
pub struct ChainOfThought {
    predict: Predict,
}

/// The output field for the reasoning.
pub open spec fn reasoning_field() -> FieldSpec {
    FieldSpec::bare("reasoning"@, FieldType::Output)
}

impl View for ChainOfThought {
    type V = PredictSpec;

    closed spec fn view(&self) -> PredictSpec {
        self.predict@
    }
}

impl ChainOfThought {
    /// Asks for the reasoning before the outputs of a signature.
    pub fn new(signature: &Signature) -> (r: Self)
        ensures
            r@ == (PredictSpec {
                signature: signature@.prepend(reasoning_field()),
                demos: Seq::empty(),
                train: false,
            }),
    {
        ChainOfThought { predict: Predict::new(signature.prepend(output_field("reasoning"))) }
    }

    /// The predictor.
    pub fn predict(&self) -> (r: &Predict)
        ensures
            r@ == self@,
    {
        &self.predict
    }

    /// The predictor, to be changed.
    pub fn predict_mut(&mut self) -> (r: &mut Predict)
        ensures
            r@ == old(self)@,
            final(self)@ == final(r)@,
    {
        &mut self.predict
    }

    /// The predictors of the module.
    pub fn named_predictors(&self) -> (r: Vec<(String, &Predict)>)
        ensures
            named(r@) == seq![("predict"@, self@)],
    {
        one_named("predict", &self.predict)
    }

    /// A copy, whose predictor keeps its traces in the same list.
    pub fn deep_copy(&self) -> (r: Self)
        ensures
            r@ == self@,
    {
        self.clone()
    }

    /// The chain of thought in JSON.
    pub fn dump_state(&self) -> (r: Json)
        ensures
            writes_predict(self@, r@),
    {
        self.predict.dump_state()
    }

    /// Takes over what a JSON value holds, as a predictor does.
    pub fn load_state(&mut self, state: &Json) -> (r: Result<()>)
        ensures
            ({
                let sig = match member_of(state@, "signature"@) {
                    Some(j) => sig_of_json(j),
                    None => Ok(old(self)@.signature),
                };
                match sig {
                    Ok(s) => {
                        &&& r is Ok
                        &&& final(self)@ == (PredictSpec {
                            signature: s,
                            demos: final(self)@.demos,
                            ..old(self)@
                        })
                        &&& match member_of(state@, "demos"@) {
                            Some(JsonSpec::Array(items)) => reads_demos(
                                items,
                                final(self)@.demos,
                            ),
                            _ => final(self)@.demos == old(self)@.demos,
                        }
                    },
                    Err(e) => {
                        &&& r matches Err(DspyError::ParseError(m)) && m@ == e
                        &&& final(self)@ == old(self)@
                    },
                }
            }),
    {
        self.predict.load_state(state)
    }
}

impl Clone for ChainOfThought {
    fn clone(&self) -> (r: Self)
        ensures
            r@ == self@,
    {
        ChainOfThought { predict: self.predict.clone() }
    }
}

/// The reasoning stands after the inputs and before the other outputs.
pub proof fn law_reasoning_comes_first(s: SigSpec)
    requires
        distinct(s.fields),
        !names(s.fields).contains("reasoning"@),
    ensures
        s.prepend(reasoning_field()).fields == s.inputs() + seq![reasoning_field()] + s.outputs(),
{
    law_prepended_output_comes_first(s, reasoning_field());
}

} // verus!
