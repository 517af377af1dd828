//! The best of several attempts.

use crate::error::{is_other_error, DspyError, Result};
use vstd::prelude::*;

verus! {

/// The order key of negative infinity. The order key of a floating-point number is
/// an integer: keys compare as the numbers do, and both zeros have the key zero.
/// What is not a number has no key.
pub const NEG_INFINITY_KEY: i64 = -9218868437227405312;

/// Attempts at something, of which the one with the highest reward is kept.
#[derive(Debug)]
pub struct Attempts<P> {
    pub best: Option<P>,
    /// The order key of the highest reward so far.
    pub best_reward: i64,
    pub fails_remaining: usize,
    /// How many attempts were made.
    pub made: usize,
    /// How many attempts there may be.
    pub n: usize,
    /// The order key of the reward that is good enough.
    pub threshold: Option<i64>,
    /// A reward was good enough.
    pub done: bool,
}

/// A reward is higher than another; what is not a number is not.
pub open spec fn beats(reward: Option<i64>, best: i64) -> bool {
    reward matches Some(r) && r > best
}

/// A reward is good enough.
pub open spec fn suffices(reward: Option<i64>, threshold: Option<i64>) -> bool {
    match (reward, threshold) {
        (Some(r), Some(t)) => r >= t,
        _ => false,
    }
}

impl<P> Attempts<P> {
    /// The attempts are not over.
    pub open spec fn goes_on(self) -> bool {
        self.made < self.n && !self.done
    }

    /// The attempts with one more that gave something.
    pub open spec fn with_attempt(self, p: P, reward: Option<i64>) -> Attempts<P> {
        Attempts {
            best: if beats(reward, self.best_reward) {
                Some(p)
            } else {
                self.best
            },
            best_reward: if beats(reward, self.best_reward) {
                reward.unwrap()
            } else {
                self.best_reward
            },
            made: (self.made + 1) as usize,
            done: self.done || suffices(reward, self.threshold),
            ..self
        }
    }

    /// Up to `n` attempts, of which `fail_count` may fail, or all where it is not
    /// given.
    pub fn new(n: usize, threshold: Option<i64>, fail_count: Option<usize>) -> (r: Self)
        ensures
            r == (Attempts::<P> {
                best: None,
                best_reward: NEG_INFINITY_KEY,
                fails_remaining: match fail_count {
                    Some(f) => f,
                    None => n,
                },
                made: 0,
                n,
                threshold,
                done: false,
            }),
    {
        Attempts {
            best: None,
            best_reward: NEG_INFINITY_KEY,
            fails_remaining: match fail_count {
                Some(f) => f,
                None => n,
            },
            made: 0,
            n,
            threshold,
            done: false,
        }
    }

    /// Whether there is another attempt to make.
    pub fn wants_more(&self) -> (r: bool)
        ensures
            r == self.goes_on(),
    {
        self.made < self.n && !self.done
    }

    /// Takes what an attempt gave, and its reward.
    pub fn on_prediction(&mut self, p: P, reward: Option<i64>)
        requires
            old(self).goes_on(),
        ensures
            *final(self) == old(self).with_attempt(p, reward),
    {
        if let Some(r) = reward {
            if r > self.best_reward {
                self.best_reward = r;
                self.best = Some(p);
            }
            if let Some(t) = self.threshold {
                if r >= t {
                    self.done = true;
                }
            }
        }
        self.made = self.made + 1;
    }

    /// Takes the failure of an attempt. It is passed on where no more may fail.
    pub fn on_error(&mut self, e: DspyError) -> (r: Result<()>)
        requires
            old(self).goes_on(),
        ensures
            if old(self).fails_remaining == 0 {
                r == Result::<()>::Err(e) && *final(self) == *old(self)
            } else {
                r is Ok && *final(self) == (Attempts {
                    fails_remaining: (old(self).fails_remaining - 1) as usize,
                    made: (old(self).made + 1) as usize,
                    ..*old(self)
                })
            },
    {
        if self.fails_remaining == 0 {
            return Err(e);
        }
        self.fails_remaining = self.fails_remaining - 1;
        self.made = self.made + 1;
        Ok(())
    }

    /// The best of the attempts.
    pub fn finish(self, name: &str) -> (r: Result<P>)
        ensures
            match self.best {
                Some(p) => r == Result::<P>::Ok(p),
                None => r matches Err(e) && is_other_error(
                    e,
                    name@ + ": All attempts failed"@,
                ),
            },
    {
        match self.best {
            Some(p) => Ok(p),
            None => {
                let mut m = name.to_owned();
                m.append(": All attempts failed");
                Err(DspyError::Other(m))
            },
        }
    }
}

/// The attempts with several more that gave something.
pub open spec fn with_attempts<P>(a: Attempts<P>, more: Seq<(P, Option<i64>)>) -> Attempts<P>
    decreases more.len(),
{
    if more.len() == 0 {
        a
    } else {
        with_attempts(a, more.drop_last()).with_attempt(more.last().0, more.last().1)
    }
}

/// What is kept is the first attempt with the highest reward of those whose reward
/// is a number above negative infinity; without one, nothing is.
pub proof fn law_the_best_is_kept<P>(a: Attempts<P>, more: Seq<(P, Option<i64>)>)
    requires
        a.best is None,
        a.best_reward == NEG_INFINITY_KEY,
    ensures
        ({
            let r = with_attempts(a, more);
            &&& r.best is None ==> r.best_reward == NEG_INFINITY_KEY && forall|i: int|
                0 <= i < more.len() ==> !beats((#[trigger] more[i]).1, NEG_INFINITY_KEY)
            &&& r.best is Some ==> exists|i: int|
                0 <= i < more.len() && #[trigger] first_highest(more, i) && r.best == Some(
                    more[i].0,
                ) && more[i].1 == Some(r.best_reward) && r.best_reward > NEG_INFINITY_KEY
        }),
    decreases more.len(),
{
    if more.len() > 0 {
        let front = more.drop_last();
        law_the_best_is_kept(a, front);
        let b = with_attempts(a, front);
        let r = with_attempts(a, more);
        let n = more.len() - 1;
        assert forall|i: int| 0 <= i < n implies #[trigger] more[i] == front[i] by {}
        if beats(more[n].1, b.best_reward) {
            assert(first_highest(more, n)) by {
                if b.best is Some {
                    let i = choose|i: int|
                        0 <= i < front.len() && #[trigger] first_highest(front, i) && b.best
                            == Some(front[i].0) && front[i].1 == Some(b.best_reward)
                            && b.best_reward > NEG_INFINITY_KEY;
                    assert forall|j: int|
                        0 <= j < more.len() && (#[trigger] more[j]).1 is Some implies more[j].1->0
                        <= more[n].1->0 && (j < n ==> more[j].1->0 < more[n].1->0) by {
                        if j < n {
                            assert(front[j] == more[j]);
                        }
                    }
                } else {
                    assert forall|j: int|
                        0 <= j < more.len() && (#[trigger] more[j]).1 is Some implies more[j].1->0
                        <= more[n].1->0 && (j < n ==> more[j].1->0 < more[n].1->0) by {
                        if j < n {
                            assert(front[j] == more[j]);
                            assert(!beats(front[j].1, NEG_INFINITY_KEY));
                        }
                    }
                }
            }
        } else if b.best is Some {
            let i = choose|i: int|
                0 <= i < front.len() && #[trigger] first_highest(front, i) && b.best == Some(
                    front[i].0,
                ) && front[i].1 == Some(b.best_reward) && b.best_reward > NEG_INFINITY_KEY;
            assert(first_highest(more, i)) by {
                assert forall|j: int|
                    0 <= j < more.len() && (#[trigger] more[j]).1 is Some implies more[j].1->0
                    <= more[i].1->0 && (j < i ==> more[j].1->0 < more[i].1->0) by {
                    if j < n {
                        assert(front[j] == more[j]);
                    }
                }
            }
        } else {
            assert forall|i: int| 0 <= i < more.len() implies !beats(
                (#[trigger] more[i]).1,
                NEG_INFINITY_KEY,
            ) by {
                if i < n {
                    assert(!beats(front[i].1, NEG_INFINITY_KEY));
                }
            }
        }
    }
}

/// The reward of an attempt is as high as any, and higher than any before.
pub open spec fn first_highest<P>(all: Seq<(P, Option<i64>)>, i: int) -> bool {
    &&& 0 <= i < all.len()
    &&& all[i].1 is Some
    &&& forall|j: int|
        0 <= j < all.len() && (#[trigger] all[j]).1 is Some ==> all[j].1->0 <= all[i].1->0 && (j < i
            ==> all[j].1->0 < all[i].1->0)
}

} // verus!
