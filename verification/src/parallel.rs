//! Running modules on their inputs one after the other, until too many fail.

use crate::error::DspyError;
use crate::prediction::{Prediction, PredictionSpec};
use crate::text::{push_text, texts};
use vstd::prelude::*;

verus! {

/// How a run is set up.
#[derive(Debug)]
pub struct ParallelConfig {
    /// How many modules run at once.
    pub num_threads: usize,
    /// How many failures are allowed.
    pub max_errors: usize,
    /// Report which modules failed.
    pub return_failed: bool,
}

impl Default for ParallelConfig {
    fn default() -> (r: Self)
        ensures
            r == (ParallelConfig {
                num_threads: 8,
                max_errors: usize::MAX,
                return_failed: false,
            }),
    {
        ParallelConfig { num_threads: 8, max_errors: usize::MAX, return_failed: false }
    }
}

/// What came of a run.
#[derive(Debug)]
pub struct ParallelResult {
    pub results: Vec<Option<Prediction>>,
    pub failed_indices: Vec<usize>,
    pub exceptions: Vec<String>,
}

/// What the result of a run says.
pub struct ParallelSpec {
    pub results: Seq<Option<PredictionSpec>>,
    pub failed_indices: Seq<int>,
    pub exceptions: Seq<Seq<char>>,
}

/// What an optional prediction says.
pub open spec fn opt_prediction(p: Option<Prediction>) -> Option<PredictionSpec> {
    match p {
        Some(x) => Some(x@),
        None => None,
    }
}

impl View for ParallelResult {
    type V = ParallelSpec;

    open spec fn view(&self) -> ParallelSpec {
        ParallelSpec {
            results: self.results@.map_values(|p: Option<Prediction>| opt_prediction(p)),
            failed_indices: self.failed_indices@.map_values(|i: usize| i as int),
            exceptions: texts(self.exceptions@),
        }
    }
}

impl ParallelSpec {
    /// Nothing was run.
    pub open spec fn empty() -> ParallelSpec {
        ParallelSpec {
            results: Seq::empty(),
            failed_indices: Seq::empty(),
            exceptions: Seq::empty(),
        }
    }

    /// There were more failures than are allowed.
    pub open spec fn gives_up(self, max_errors: nat) -> bool {
        self.failed_indices.len() > max_errors
    }

    /// The next module gave a prediction.
    pub open spec fn with_prediction(self, p: PredictionSpec) -> ParallelSpec {
        ParallelSpec { results: self.results.push(Some(p)), ..self }
    }

    /// The next module failed.
    pub open spec fn with_failure(self, message: Seq<char>) -> ParallelSpec {
        ParallelSpec {
            results: self.results.push(None),
            failed_indices: self.failed_indices.push(self.results.len() as int),
            exceptions: self.exceptions.push(message),
        }
    }

    /// The next module was left out.
    pub open spec fn with_gap(self) -> ParallelSpec {
        ParallelSpec { results: self.results.push(None), ..self }
    }

    /// The failures name modules that gave nothing, in order, each with its message.
    pub open spec fn consistent(self) -> bool {
        &&& self.exceptions.len() == self.failed_indices.len()
        &&& forall|i: int|
            0 <= i < self.failed_indices.len() ==> 0 <= #[trigger] self.failed_indices[i]
                < self.results.len() && self.results[self.failed_indices[i]] is None
        &&& forall|i: int, j: int|
            0 <= i < j < self.failed_indices.len() ==> self.failed_indices[i]
                < self.failed_indices[j]
    }
}

impl ParallelResult {
    /// Nothing was run.
    pub fn new() -> (r: Self)
        ensures
            r@ == ParallelSpec::empty(),
    {
        let r = ParallelResult {
            results: Vec::new(),
            failed_indices: Vec::new(),
            exceptions: Vec::new(),
        };
        proof {
            assert(r@.results =~= Seq::<Option<PredictionSpec>>::empty());
            assert(r@.failed_indices =~= Seq::<int>::empty());
            assert(r@.exceptions =~= Seq::<Seq<char>>::empty());
        }
        r
    }

    /// Whether the next module is to be run: not after more failures than are
    /// allowed.
    pub fn runs_next(&self, config: &ParallelConfig) -> (r: bool)
        ensures
            r == !self@.gives_up(config.max_errors as nat),
    {
        self.failed_indices.len() <= config.max_errors
    }

    /// Takes what the next module gave.
    pub fn on_outcome(&mut self, outcome: std::result::Result<Prediction, DspyError>)
        ensures
            final(self)@ == match outcome {
                Ok(p) => old(self)@.with_prediction(p@),
                Err(e) => old(self)@.with_failure(e.message_of()),
            },
    {
        let ghost before = self@;
        match outcome {
            Ok(p) => {
                self.results.push(Some(p));
                proof {
                    assert(self@.results =~= before.with_prediction(p@).results);
                }
            },
            Err(e) => {
                let idx: usize = self.results.len();
                self.failed_indices.push(idx);
                push_text(&mut self.exceptions, e.message());
                self.results.push(None);
                proof {
                    let want = before.with_failure(e.message_of());
                    assert(self@.results =~= want.results);
                    assert(self@.failed_indices =~= want.failed_indices);
                }
            },
        }
    }

    /// Leaves the next module out.
    pub fn on_skip(&mut self)
        ensures
            final(self)@ == old(self)@.with_gap(),
    {
        let ghost before = self@;
        self.results.push(None);
        proof {
            assert(self@.results =~= before.with_gap().results);
        }
    }
}

/// There is a result for every module, and the failures name modules that gave
/// nothing, in order.
pub proof fn law_failures_are_named(s: ParallelSpec, p: PredictionSpec, message: Seq<char>)
    requires
        s.consistent(),
    ensures
        ParallelSpec::empty().consistent(),
        s.with_prediction(p).consistent(),
        s.with_failure(message).consistent(),
        s.with_gap().consistent(),
        s.with_prediction(p).results.len() == s.results.len() + 1,
        s.with_failure(message).results.len() == s.results.len() + 1,
        s.with_gap().results.len() == s.results.len() + 1,
{
    let f = s.with_failure(message);
    assert forall|i: int| 0 <= i < f.failed_indices.len() implies 0
        <= #[trigger] f.failed_indices[i] < f.results.len()
        && f.results[f.failed_indices[i]] is None by {
        if i < s.failed_indices.len() {
            assert(f.failed_indices[i] == s.failed_indices[i]);
        }
    }
    assert forall|i: int, j: int| 0 <= i < j < f.failed_indices.len() implies f.failed_indices[i]
        < f.failed_indices[j] by {
        if j < s.failed_indices.len() {
            assert(s.failed_indices[i] < s.failed_indices[j]);
        } else {
            assert(0 <= s.failed_indices[i] < s.results.len());
        }
    }
}

} // verus!
