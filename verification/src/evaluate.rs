//! Evaluating a program on examples: what is kept of each, and when there are too
//! many errors.

use crate::error::{is_evaluation_error, DspyError, Result};
use crate::example::{Example, ExampleSpec};
use crate::prediction::{Prediction, PredictionSpec};
use crate::text::{dec_of, dec_size};
use vstd::prelude::*;

verus! {

/// How an evaluation is set up. `S` is the type of a score.
#[derive(Debug)]
pub struct EvaluateConfig<S> {
    pub num_threads: usize,
    pub display_progress: bool,
    /// The score of an example on which the program fails.
    pub failure_score: S,
    /// How many errors end the evaluation.
    pub max_errors: usize,
}

impl<S> EvaluateConfig<S> {
    /// The default setting, with the score of a failure.
    pub fn with_failure_score(failure_score: S) -> (r: Self)
        ensures
            r == (EvaluateConfig {
                num_threads: 4,
                display_progress: false,
                failure_score,
                max_errors: 5,
            }),
    {
        EvaluateConfig { num_threads: 4, display_progress: false, failure_score, max_errors: 5 }
    }
}

/// What an evaluation has so far.
#[derive(Debug)]
pub struct EvaluationRun<S> {
    pub results: Vec<(Example, Prediction, S)>,
    pub errors: usize,
    pub max_errors: usize,
}

/// What the results of an evaluation say.
pub open spec fn result_list<S>(v: Seq<(Example, Prediction, S)>) -> Seq<
    (ExampleSpec, PredictionSpec, S),
> {
    v.map_values(|r: (Example, Prediction, S)| (r.0@, r.1@, r.2))
}

/// A prediction without any field.
pub open spec fn empty_prediction() -> PredictionSpec {
    PredictionSpec::of_example(ExampleSpec::empty())
}

impl<S> EvaluationRun<S> {
    /// Begins an evaluation.
    pub fn new(max_errors: usize) -> (r: Self)
        ensures
            result_list(r.results@) == Seq::<(ExampleSpec, PredictionSpec, S)>::empty(),
            r.errors == 0,
            r.max_errors == max_errors,
    {
        let r = EvaluationRun { results: Vec::new(), errors: 0, max_errors };
        proof {
            assert(result_list(r.results@) =~= Seq::<
                (ExampleSpec, PredictionSpec, S),
            >::empty());
        }
        r
    }

    /// The inputs that the program is run on.
    pub fn inputs_of(&self, example: &Example) -> (r: Example)
        ensures
            r@ == example@.inputs(),
    {
        example.inputs()
    }

    /// Takes what the program predicts for an example, and its score.
    pub fn on_prediction(&mut self, example: &Example, prediction: Prediction, score: S)
        ensures
            result_list(final(self).results@) == result_list(old(self).results@).push(
                (example@, prediction@, score),
            ),
            final(self).errors == old(self).errors,
            final(self).max_errors == old(self).max_errors,
    {
        let ghost before = result_list(self.results@);
        self.results.push((example.clone(), prediction, score));
        proof {
            assert(result_list(self.results@) =~= before.push((example@, prediction@, score)));
        }
    }

    /// Takes the failure of the program on an example: it counts as the failure
    /// score, unless there are too many errors.
    pub fn on_failure(&mut self, example: &Example, failure_score: S) -> (r: Result<()>)
        requires
            old(self).errors < usize::MAX,
        ensures
            final(self).errors == old(self).errors + 1,
            final(self).max_errors == old(self).max_errors,
            if old(self).errors + 1 >= old(self).max_errors {
                &&& r matches Err(e) && is_evaluation_error(
                    e,
                    "Too many errors during evaluation: "@ + dec_of(
                        (old(self).errors + 1) as nat,
                    ),
                )
                &&& result_list(final(self).results@) == result_list(old(self).results@)
            } else {
                &&& r is Ok
                &&& result_list(final(self).results@) == result_list(old(self).results@).push(
                    (example@, empty_prediction(), failure_score),
                )
            },
    {
        self.errors = self.errors + 1;
        if self.errors >= self.max_errors {
            let mut m = "Too many errors during evaluation: ".to_string();
            m.append(dec_size(self.errors).as_str());
            return Err(DspyError::EvaluationError(m));
        }
        self.on_prediction(example, Prediction::from_example(Example::new()), failure_score);
        Ok(())
    }
}

} // verus!
