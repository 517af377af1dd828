//! Comparing several chains of thought: a model sees the attempts and gives the best
//! answer.

use crate::error::{is_other_error, DspyError, Result};
use crate::example::{example_list, lemma_example_list, Example, ExampleSpec};
use crate::predict::{named, one_named, Predict};
use crate::rlm::fresh_predict;
use crate::signature::{input_field, output_field, FieldSpec, FieldType, SigSpec, Signature};
use crate::text::{dec_of, dec_size, lines, lines_of, texts, trim, trim_of};
use crate::value::{Value, ValueSpec};
use vstd::prelude::*;

verus! {

/// A predictor that compares attempts.
#[derive(Debug)]
pub struct MultiChainComparison {
    pub m: usize,
    pub predict: Predict,
    pub last_key: String,
}

/// The field for an attempt.
pub open spec fn attempt_field(n: nat) -> FieldSpec {
    FieldSpec::bare("reasoning_attempt_"@ + dec_of(n), FieldType::Input).pre(
        "Student Attempt #"@ + dec_of(n) + ":"@,
    ).desc("${reasoning attempt}"@)
}

/// A signature with fields for attempts.
pub open spec fn with_attempts(s: SigSpec, m: nat) -> SigSpec
    decreases m,
{
    if m == 0 {
        s
    } else {
        with_attempts(s, (m - 1) as nat).append(attempt_field(m))
    }
}

/// The field for the corrected reasoning.
pub open spec fn rationale_field() -> FieldSpec {
    FieldSpec::bare("rationale"@, FieldType::Output).pre(
        "Accurate Reasoning: Thank you everyone. Let's now holistically"@,
    ).desc("${corrected reasoning}"@)
}

/// The text that a value is, or the empty text.
pub open spec fn text_in_value(v: Option<ValueSpec>) -> Seq<char> {
    match v {
        Some(ValueSpec::Text(t)) => t,
        _ => Seq::empty(),
    }
}

/// The value of a field.
pub open spec fn value_in(e: ExampleSpec, key: Seq<char>) -> Option<ValueSpec> {
    if e.store.contains_key(key) {
        Some(e.store[key])
    } else {
        None
    }
}

/// The first line of a text, trimmed.
pub open spec fn first_line_of(s: Seq<char>) -> Seq<char> {
    let all = lines_of(trim_of(s));
    if all.len() > 0 {
        trim_of(all[0])
    } else {
        trim_of(Seq::empty())
    }
}

/// How an attempt is shown.
pub open spec fn attempt_text(c: ExampleSpec, last_key: Seq<char>) -> Seq<char> {
    let rationale = match value_in(c, "rationale"@) {
        Some(v) => Some(v),
        None => value_in(c, "reasoning"@),
    };
    "«I'm trying to "@ + first_line_of(text_in_value(rationale))
        + " I'm not sure but my prediction is "@ + first_line_of(
        text_in_value(value_in(c, last_key)),
    ) + "»"@
}

/// The inputs with the attempts.
pub open spec fn with_attempt_texts(
    kwargs: ExampleSpec,
    completions: Seq<ExampleSpec>,
    last_key: Seq<char>,
) -> ExampleSpec
    decreases completions.len(),
{
    if completions.len() == 0 {
        kwargs
    } else {
        with_attempt_texts(kwargs, completions.drop_last(), last_key).with(
            "reasoning_attempt_"@ + dec_of(completions.len()),
            ValueSpec::Text(attempt_text(completions.last(), last_key)),
        )
    }
}

fn first_line(s: &str) -> (r: String)
    ensures
        r@ == first_line_of(s@),
{
    let all = lines(trim(s).as_str());
    proof {
        reveal_strlit("");
        assert(""@ =~= Seq::<char>::empty());
    }
    if all.len() > 0 {
        proof {
            assert(texts(all@)[0] == all@[0]@);
        }
        trim(all[0].as_str())
    } else {
        trim("")
    }
}

fn text_of_value(v: Option<&Value>) -> (r: &str)
    ensures
        r@ == text_in_value(match v {
            Some(x) => Some(x@),
            None => None,
        }),
{
    proof {
        reveal_strlit("");
        assert(""@ =~= Seq::<char>::empty());
    }
    match v {
        Some(Value::String(t)) => t.as_str(),
        _ => "",
    }
}

impl MultiChainComparison {
    /// A predictor that compares attempts at a task that has an output. Where it is
    /// not given, there are 3 attempts.
    pub fn new(signature: Signature, m: Option<usize>) -> (r: Self)
        requires
            signature@.outputs().len() > 0,
        ensures
            r.m == match m {
                Some(n) => n,
                None => 3,
            },
            r.last_key@ == signature@.outputs().last().name,
            r.predict@ == fresh_predict(
                with_attempts(signature@, r.m as nat).prepend(rationale_field()),
            ),
    {
        let count: usize = match m {
            Some(n) => n,
            None => 3,
        };
        let outputs = signature.output_names();
        proof {
            assert(texts(outputs@).len() == signature@.outputs().len());
            assert(texts(outputs@).last() == outputs@[outputs@.len() - 1]@);
        }
        let last_key = outputs[outputs.len() - 1].clone();
        let ghost s = signature@;
        let mut sig = signature;
        let mut i: usize = 0;
        while i < count
            invariant
                i <= count,
                sig@ == with_attempts(s, i as nat),
            decreases count - i,
        {
            let number = dec_size(i + 1);
            let mut name = "reasoning_attempt_".to_string();
            name.append(number.as_str());
            let mut prefix = "Student Attempt #".to_string();
            prefix.append(number.as_str());
            prefix.append(":");
            sig = sig.append(
                input_field(name.as_str()).with_prefix(prefix.as_str()).with_desc(
                    "${reasoning attempt}",
                ),
            );
            i = i + 1;
        }
        let full = sig.prepend(
            output_field("rationale").with_prefix(
                "Accurate Reasoning: Thank you everyone. Let's now holistically",
            ).with_desc("${corrected reasoning}"),
        );
        MultiChainComparison { m: count, predict: Predict::new(full), last_key }
    }

    /// The inputs of the comparison: those of the task and the attempts, of which
    /// there must be as many as were announced.
    pub fn comparison_inputs(&self, completions: &Vec<Example>, kwargs: &Example) -> (r: Example)
        requires
            completions@.len() == self.m,
        ensures
            r@ == with_attempt_texts(kwargs@, example_list(completions@), self.last_key@),
    {
        let ghost all = example_list(completions@);
        let mut inputs = kwargs.clone();
        let mut i: usize = 0;
        proof {
            lemma_example_list(completions@);
            assert(all.take(0) =~= Seq::<ExampleSpec>::empty());
        }
        while i < completions.len()
            invariant
                i <= completions.len(),
                all.len() == completions@.len(),
                forall|k: int| 0 <= k < completions@.len() ==> #[trigger] all[k]
                    == completions@[k]@,
                inputs@ == with_attempt_texts(kwargs@, all.take(i as int), self.last_key@),
            decreases completions.len() - i,
        {
            let n: usize = completions.len();
            proof {
                assert(i < n);
                assert(all.take(i + 1).drop_last() =~= all.take(i as int));
                assert(all.take(i + 1).last() == completions@[i as int]@);
            }
            let c = &completions[i];
            let rationale = match c.get("rationale") {
                Some(v) => Some(v),
                None => c.get("reasoning"),
            };
            let mut text = "«I'm trying to ".to_string();
            text.append(first_line(text_of_value(rationale)).as_str());
            text.append(" I'm not sure but my prediction is ");
            text.append(first_line(text_of_value(c.get(self.last_key.as_str()))).as_str());
            text.append("»");
            let mut name = "reasoning_attempt_".to_string();
            name.append(dec_size(i + 1).as_str());
            inputs = inputs.field(name.as_str(), text);
            i = i + 1;
        }
        proof {
            assert(all.take(i as int) =~= all);
        }
        inputs
    }

    /// A comparison needs attempts, and cannot be called without them.
    pub fn forward_without_completions(&self) -> (r: Result<()>)
        ensures
            r matches Err(e) && is_other_error(
                e,
                "Use forward_with_completions for MultiChainComparison"@,
            ),
    {
        Err(
            DspyError::Other("Use forward_with_completions for MultiChainComparison".to_string()),
        )
    }

    /// The predictor.
    pub fn predict(&self) -> (r: &Predict)
        ensures
            *r == self.predict,
    {
        &self.predict
    }

    /// The predictors of the module.
    pub fn named_predictors(&self) -> (r: Vec<(String, &Predict)>)
        ensures
            named(r@) == seq![("predict"@, self.predict@)],
    {
        one_named("predict", &self.predict)
    }

    /// A copy, whose predictor keeps its traces in the same list.
    pub fn deep_copy(&self) -> (r: Self)
        ensures
            r.m == self.m,
            r.predict@ == self.predict@,
            r.last_key@ == self.last_key@,
    {
        MultiChainComparison {
            m: self.m,
            predict: self.predict.clone(),
            last_key: self.last_key.clone(),
        }
    }

    /// The predictor, to be changed.
    pub fn predict_mut(&mut self) -> (r: &mut Predict)
        ensures
            *r == old(self).predict,
            *final(self) == (MultiChainComparison { predict: *final(r), ..*old(self) }),
    {
        &mut self.predict
    }
}

} // verus!
