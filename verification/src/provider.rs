//! Jobs that train models.

use crate::finetune_types::TrainDataFormat;
use crate::json::{empty_object, json_object, new_object, Json};
use crate::strmap::StrMap;
use vstd::prelude::*;

verus! {

/// A job that trains a model. `L` is a handle to the model that comes of it.
#[derive(Debug)]
pub struct TrainingJob<L> {
    pub model: Option<String>,
    pub train_data: Option<Vec<Json>>,
    pub train_data_format: Option<TrainDataFormat>,
    pub train_kwargs: StrMap<Json>,
    pub done: bool,
    pub cancelled: bool,
    /// What came of the job, and is not handed out yet.
    pub outcome: Option<std::result::Result<L, String>>,
    /// What came of the job is known.
    pub settled: bool,
    /// What came of the job was handed out.
    pub consumed: bool,
}

impl<L> TrainingJob<L> {
    /// A job that runs.
    pub fn new() -> (r: Self)
        ensures
            r.model is None,
            r.train_data is None,
            r.train_data_format is None,
            json_object(r.train_kwargs) == empty_object(),
            !r.done,
            !r.cancelled,
            r.outcome is None,
            !r.settled,
            !r.consumed,
    {
        TrainingJob {
            model: None,
            train_data: None,
            train_data_format: None,
            train_kwargs: new_object(),
            done: false,
            cancelled: false,
            outcome: None,
            settled: false,
            consumed: false,
        }
    }

    /// The job with the name of the model.
    pub fn with_model(self, model: &str) -> (r: Self)
        ensures
            r.model matches Some(m) && m@ == model@,
            r == (TrainingJob { model: r.model, ..self }),
    {
        TrainingJob { model: Some(model.to_owned()), ..self }
    }

    /// The job with its data.
    pub fn with_train_data(self, data: Vec<Json>) -> (r: Self)
        ensures
            r == (TrainingJob { train_data: Some(data), ..self }),
    {
        TrainingJob { train_data: Some(data), ..self }
    }

    /// The job with its arguments.
    pub fn with_train_kwargs(self, kwargs: StrMap<Json>) -> (r: Self)
        ensures
            r == (TrainingJob { train_kwargs: kwargs, ..self }),
    {
        TrainingJob { train_kwargs: kwargs, ..self }
    }

    /// The job after it ended with what came of it.
    pub open spec fn completed(self, result: std::result::Result<L, String>) -> Self {
        TrainingJob {
            done: true,
            settled: true,
            outcome: if self.settled {
                self.outcome
            } else {
                Some(result)
            },
            ..self
        }
    }

    /// Ends the job with what came of it. What came first counts.
    pub fn complete(&mut self, result: std::result::Result<L, String>)
        ensures
            *final(self) == old(self).completed(result),
    {
        self.done = true;
        if !self.settled {
            self.settled = true;
            self.outcome = Some(result);
        }
    }

    /// Cancels the job.
    pub fn cancel(&mut self)
        ensures
            exists|e: String|
                #[trigger] e@ == "Job cancelled"@ && *final(self) == (TrainingJob {
                    cancelled: true,
                    ..*old(self)
                }).completed(Err::<L, String>(e)),
    {
        self.cancelled = true;
        let e = "Job cancelled".to_string();
        let ghost said = e;
        self.complete(Err(e));
        proof {
            assert(said@ == "Job cancelled"@);
        }
    }

    /// What came of the job, which is handed out once; nothing as long as it runs.
    pub fn result(&mut self) -> (r: Option<std::result::Result<L, String>>)
        ensures
            if old(self).consumed {
                &&& r matches Some(Err(e)) && e@ == "Result already consumed"@
                &&& *final(self) == *old(self)
            } else if old(self).outcome is Some {
                &&& r == old(self).outcome
                &&& *final(self) == (TrainingJob { consumed: true, outcome: None, ..*old(self) })
            } else {
                &&& r is None
                &&& *final(self) == *old(self)
            },
    {
        if self.consumed {
            return Some(Err("Result already consumed".to_string()));
        }
        match self.outcome.take() {
            Some(x) => {
                self.consumed = true;
                Some(x)
            },
            None => None,
        }
    }

    /// Whether the job has ended.
    pub fn is_done(&self) -> (r: bool)
        ensures
            r == self.done,
    {
        self.done
    }

    /// Whether the job was cancelled.
    pub fn is_cancelled(&self) -> (r: bool)
        ensures
            r == self.cancelled,
    {
        self.cancelled
    }

    /// Where the job stands.
    pub fn status(&self) -> (r: &'static str)
        ensures
            r@ == if self.cancelled {
                "cancelled"@
            } else if self.done {
                "done"@
            } else {
                "running"@
            },
    {
        if self.cancelled {
            "cancelled"
        } else if self.done {
            "done"
        } else {
            "running"
        }
    }
}

/// Of two outcomes of a job, the first counts.
pub proof fn law_first_outcome_counts<L>(
    job: TrainingJob<L>,
    first: std::result::Result<L, String>,
    second: std::result::Result<L, String>,
)
    requires
        !job.settled,
    ensures
        job.completed(first).completed(second) == job.completed(first),
        job.completed(first).outcome == Some(first),
{
}

} // verus!
