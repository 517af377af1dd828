//! Running a function over many items at once: what to do with values, errors and
//! items that take too long.

use crate::error::{is_other_error, DspyError, Result};
use vstd::prelude::*;

verus! {

/// How a parallel run is set up.
#[derive(Debug)]
pub struct ParallelExecutorConfig {
    /// How many items are worked on at once.
    pub num_threads: usize,
    /// How many errors cancel the run.
    pub max_errors: usize,
    /// How many seconds an item may take; zero for no bound.
    pub timeout_secs: u64,
    /// How many items that took too long are tried again.
    pub straggler_limit: usize,
    /// Report errors as they come.
    pub provide_traceback: bool,
}

impl Default for ParallelExecutorConfig {
    fn default() -> (r: Self)
        ensures
            r == (ParallelExecutorConfig {
                num_threads: 4,
                max_errors: 5,
                timeout_secs: 120,
                straggler_limit: 3,
                provide_traceback: false,
            }),
    {
        ParallelExecutorConfig {
            num_threads: 4,
            max_errors: 5,
            timeout_secs: 120,
            straggler_limit: 3,
            provide_traceback: false,
        }
    }
}

/// Runs a function over many items at once.
#[derive(Debug)]
pub struct ParallelExecutor {
    config: ParallelExecutorConfig,
}

impl ParallelExecutor {
    /// Something is worked on at any time.
    #[verifier::type_invariant]
    pub closed spec fn wf(self) -> bool {
        self.config.num_threads > 0
    }

    /// How the executor is set up.
    pub closed spec fn settings(self) -> ParallelExecutorConfig {
        self.config
    }

    /// An executor. With no threads it would never begin, so it has one at least.
    pub fn new(config: ParallelExecutorConfig) -> (r: Self)
        ensures
            r.settings() == (ParallelExecutorConfig {
                num_threads: if config.num_threads == 0 {
                    1
                } else {
                    config.num_threads
                },
                ..config
            }),
    {
        let num_threads: usize = if config.num_threads == 0 {
            1
        } else {
            config.num_threads
        };
        ParallelExecutor { config: ParallelExecutorConfig { num_threads, ..config } }
    }

    /// An executor that is set up by default.
    pub fn default_config() -> (r: Self)
        ensures
            r.settings() == (ParallelExecutorConfig {
                num_threads: 4,
                max_errors: 5,
                timeout_secs: 120,
                straggler_limit: 3,
                provide_traceback: false,
            }),
    {
        ParallelExecutor::new(ParallelExecutorConfig::default())
    }

    /// How the executor is set up.
    pub fn config(&self) -> (r: &ParallelExecutorConfig)
        ensures
            *r == self.settings(),
            r.num_threads > 0,
    {
        proof {
            use_type_invariant(self);
        }
        &self.config
    }

    /// Begins a run over so many items.
    pub fn begin<R>(&self, len: usize) -> (r: ParallelBatch<R>)
        ensures
            r@ == (BatchSpec {
                results: Seq::new(len as nat, |i: int| None::<R>),
                errors: 0,
                timed_out: Seq::empty(),
                cancelled: false,
                max_errors: self.settings().max_errors as nat,
                straggler_limit: self.settings().straggler_limit as nat,
            }),
    {
        let mut results: Vec<Option<R>> = Vec::new();
        let mut i: usize = 0;
        while i < len
            invariant
                i <= len,
                results@.len() == i,
                forall|k: int| 0 <= k < i ==> (#[trigger] results@[k]) is None,
            decreases len - i,
        {
            results.push(None);
            i = i + 1;
        }
        let r = ParallelBatch {
            results,
            errors: 0,
            timed_out: Vec::new(),
            cancelled: false,
            max_errors: self.config.max_errors,
            straggler_limit: self.config.straggler_limit,
        };
        proof {
            assert(r@.results =~= Seq::new(len as nat, |i: int| None::<R>));
            assert(r@.timed_out =~= Seq::<usize>::empty());
        }
        r
    }
}

/// A run over many items.
#[derive(Debug)]
pub struct ParallelBatch<R> {
    results: Vec<Option<R>>,
    errors: usize,
    timed_out: Vec<usize>,
    cancelled: bool,
    max_errors: usize,
    straggler_limit: usize,
}

/// Where a run stands.
pub struct BatchSpec<R> {
    /// The values that are there.
    pub results: Seq<Option<R>>,
    pub errors: nat,
    /// The items that took too long.
    pub timed_out: Seq<usize>,
    pub cancelled: bool,
    pub max_errors: nat,
    pub straggler_limit: nat,
}

impl<R> BatchSpec<R> {
    /// An item gave a value.
    pub open spec fn with_value(self, idx: int, v: R) -> BatchSpec<R> {
        BatchSpec { results: self.results.update(idx, Some(v)), ..self }
    }

    /// An item failed.
    pub open spec fn with_error(self) -> BatchSpec<R> {
        BatchSpec {
            errors: self.errors + 1,
            cancelled: self.cancelled || self.errors + 1 >= self.max_errors,
            ..self
        }
    }

    /// An item took too long.
    pub open spec fn with_timeout(self, idx: usize) -> BatchSpec<R> {
        BatchSpec { timed_out: self.timed_out.push(idx), ..self }
    }

    /// The items that are tried again: those that took too long, if they are few.
    pub open spec fn stragglers(self) -> Seq<usize> {
        if self.timed_out.len() <= self.straggler_limit {
            self.timed_out
        } else {
            Seq::empty()
        }
    }
}

impl<R> View for ParallelBatch<R> {
    type V = BatchSpec<R>;

    closed spec fn view(&self) -> BatchSpec<R> {
        BatchSpec {
            results: self.results@,
            errors: self.errors as nat,
            timed_out: self.timed_out@,
            cancelled: self.cancelled,
            max_errors: self.max_errors as nat,
            straggler_limit: self.straggler_limit as nat,
        }
    }
}

impl<R> ParallelBatch<R> {
    /// The run is cancelled exactly where there are too many errors, and what took
    /// too long are items of the run.
    #[verifier::type_invariant]
    pub closed spec fn wf(self) -> bool {
        &&& self.cancelled == (self.errors > 0 && self.errors >= self.max_errors)
        &&& forall|i: int|
            0 <= i < self.timed_out@.len() ==> (#[trigger] self.timed_out@[i]) < self.results@.len()
    }

    /// The run is cancelled exactly where there are too many errors.
    pub proof fn law_too_many_errors_cancel(self)
        requires
            self.wf(),
        ensures
            self@.cancelled <==> self@.errors > 0 && self@.errors >= self@.max_errors,
            forall|i: int|
                0 <= i < self@.timed_out.len() ==> (#[trigger] self@.timed_out[i])
                    < self@.results.len(),
    {
    }

    /// Whether another item may begin.
    pub fn may_start(&self) -> (r: bool)
        ensures
            r == !self@.cancelled,
    {
        !self.cancelled
    }

    /// Takes the value of an item.
    pub fn on_value(&mut self, idx: usize, value: R)
        requires
            idx < old(self)@.results.len(),
        ensures
            final(self)@ == old(self)@.with_value(idx as int, value),
    {
        proof {
            use_type_invariant(&*self);
        }
        let mut results: Vec<Option<R>> = Vec::new();
        let mut timed_out: Vec<usize> = Vec::new();
        std::mem::swap(&mut timed_out, &mut self.timed_out);
        std::mem::swap(&mut results, &mut self.results);
        results.set(idx, Some(value));
        std::mem::swap(&mut results, &mut self.results);
        std::mem::swap(&mut timed_out, &mut self.timed_out);
    }

    /// Takes the error of an item. Too many errors cancel the run.
    pub fn on_error(&mut self)
        requires
            old(self)@.errors < usize::MAX,
        ensures
            final(self)@ == old(self)@.with_error(),
    {
        proof {
            use_type_invariant(&*self);
        }
        let errors: usize = self.errors + 1;
        let cancelled = self.cancelled || errors >= self.max_errors;
        let mut results: Vec<Option<R>> = Vec::new();
        let mut timed_out: Vec<usize> = Vec::new();
        std::mem::swap(&mut timed_out, &mut self.timed_out);
        std::mem::swap(&mut results, &mut self.results);
        *self = ParallelBatch {
            results,
            errors,
            timed_out,
            cancelled,
            max_errors: self.max_errors,
            straggler_limit: self.straggler_limit,
        };
    }

    /// Takes note of an item that took too long.
    pub fn on_timeout(&mut self, idx: usize)
        requires
            idx < old(self)@.results.len(),
        ensures
            final(self)@ == old(self)@.with_timeout(idx),
    {
        proof {
            use_type_invariant(&*self);
        }
        let mut timed_out: Vec<usize> = Vec::new();
        std::mem::swap(&mut timed_out, &mut self.timed_out);
        timed_out.push(idx);
        std::mem::swap(&mut timed_out, &mut self.timed_out);
    }

    /// The items to be tried again once all others are done, unless the run is
    /// cancelled.
    pub fn stragglers(&self) -> (r: Result<Vec<usize>>)
        ensures
            match r {
                Ok(v) => !self@.cancelled && v@ == self@.stragglers(),
                Err(e) => self@.cancelled && is_other_error(
                    e,
                    "Execution cancelled due to errors or interruption."@,
                ),
            },
    {
        if self.cancelled {
            return Err(
                DspyError::Other(
                    "Execution cancelled due to errors or interruption.".to_string(),
                ),
            );
        }
        let mut r: Vec<usize> = Vec::new();
        if self.timed_out.len() <= self.straggler_limit {
            let mut i: usize = 0;
            while i < self.timed_out.len()
                invariant
                    i <= self.timed_out@.len(),
                    r@ == self.timed_out@.take(i as int),
                decreases self.timed_out@.len() - i,
            {
                r.push(self.timed_out[i]);
                proof {
                    assert(self.timed_out@.take(i + 1) =~= self.timed_out@.take(i as int).push(
                        self.timed_out@[i as int],
                    ));
                }
                i = i + 1;
            }
            proof {
                assert(self.timed_out@.take(i as int) =~= self.timed_out@);
            }
        }
        Ok(r)
    }

    /// The values of a run that was not cancelled; nothing stands for items that
    /// failed.
    pub fn finish(self) -> (r: Result<Vec<Option<R>>>)
        ensures
            match r {
                Ok(v) => !self@.cancelled && v@ == self@.results,
                Err(e) => self@.cancelled && is_other_error(
                    e,
                    "Execution cancelled due to errors or interruption."@,
                ),
            },
    {
        if self.cancelled {
            return Err(
                DspyError::Other(
                    "Execution cancelled due to errors or interruption.".to_string(),
                ),
            );
        }
        Ok(self.results)
    }
}

/// What comes of an item changes no other, and there is a place for every item at
/// any time.
pub proof fn law_items_do_not_touch_others<R>(b: BatchSpec<R>, idx: int, other: int, v: R)
    requires
        0 <= idx < b.results.len(),
        0 <= other < b.results.len(),
        idx != other,
    ensures
        b.with_value(idx, v).results.len() == b.results.len(),
        b.with_value(idx, v).results[idx] == Some(v),
        b.with_value(idx, v).results[other] == b.results[other],
        b.with_error().results == b.results,
        b.with_timeout(idx as usize).results == b.results,
{
}

} // verus!
