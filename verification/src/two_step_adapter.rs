//! The two-step adapter: a first prompt in plain words, and a second one that
//! takes the fields out of the reply.

use crate::adapter::{
    around, field_descriptions, pair_fields, pairs_ok, tick_list, ticked_list, ChatAdapter,
};
use crate::error::{is_lm_error, DspyError, Result};
use crate::example::{example_list, lemma_example_list, Example, ExampleSpec};
use crate::message::{message_list, push_message, Message, MessageSpec};
use crate::signature::{gives_sig, names, sig_of_text, FieldDef, FieldSpec, SigSpec, Signature};
use crate::strmap::StrMap;
use crate::text::{join, join_of, push_text, texts, trim_end, trim_end_of};
use crate::value::{shown, Value, ValueSpec};
use vstd::prelude::*;

verus! {

/// Formats prompts in plain words, and those that take the fields out of the
/// replies.
#[derive(Debug)]
pub struct TwoStepAdapter;

/// The line `name: value` of each field that the example has.
pub open spec fn simple_parts(fields: Seq<FieldSpec>, e: ExampleSpec) -> Seq<Seq<char>>
    decreases fields.len(),
{
    if fields.len() == 0 {
        Seq::empty()
    } else {
        let front = simple_parts(fields.drop_last(), e);
        let name = fields.last().name;
        if e.store.contains_key(name) {
            front.push(name + ": "@ + shown(e.store[name]))
        } else {
            front
        }
    }
}

/// Fields in plain words.
pub open spec fn simple_text(fields: Seq<FieldSpec>, e: ExampleSpec) -> Seq<char> {
    trim_end_of(join_of(simple_parts(fields, e), "\n\n"@))
}

/// The task in plain words.
pub open spec fn task_parts(s: SigSpec) -> Seq<Seq<char>> {
    let parts = seq![
        "You are a helpful assistant that can solve tasks based on user input."@,
        "As input, you will be provided with:\n"@ + field_descriptions(s.inputs()),
        "Your outputs must contain:\n"@ + field_descriptions(s.outputs()),
        "You should lay out your outputs in detail so that your answer can be understood by another agent"@,
    ];
    if s.instructions.len() > 0 {
        parts.push("Specific instructions: "@ + s.instructions)
    } else {
        parts
    }
}

/// The messages of demonstrations.
pub open spec fn simple_demos(s: SigSpec, demos: Seq<ExampleSpec>) -> Seq<MessageSpec>
    decreases demos.len(),
{
    if demos.len() == 0 {
        Seq::empty()
    } else {
        simple_demos(s, demos.drop_last()).push(
            MessageSpec::user(simple_text(s.inputs(), demos.last())),
        ).push(MessageSpec::assistant(simple_text(s.outputs(), demos.last())))
    }
}

/// The messages of the first prompt.
pub open spec fn first_pass(s: SigSpec, e: ExampleSpec, demos: Seq<ExampleSpec>) -> Seq<
    MessageSpec,
> {
    (seq![MessageSpec::system(join_of(task_parts(s), "\n"@))] + simple_demos(s, demos)).push(
        MessageSpec::user(simple_text(s.inputs(), e)),
    )
}

/// The instructions of the second prompt.
pub open spec fn extraction_instructions(outputs: Seq<Seq<char>>) -> Seq<char> {
    "The input is a text that should contain all the necessary information to produce the fields "@
        + ticked_list(outputs)
        + ". Your job is to extract the fields from the text verbatim. Extract precisely the appropriate value (content) for each field."@
}

/// The signature of the second prompt: from a text to the output fields.
pub open spec fn extractor_sig(s: SigSpec) -> std::result::Result<SigSpec, Seq<char>> {
    match sig_of_text("text -> "@ + join_of(names(s.outputs()), ", "@)) {
        Ok(x) => Ok(
            SigSpec { instructions: extraction_instructions(names(s.outputs())), ..x },
        ),
        Err(m) => Err(m),
    }
}

/// The first result of each reply that has one.
pub open spec fn first_results(found: Seq<Vec<StrMap<Value>>>) -> Seq<StrMap<Value>>
    decreases found.len(),
{
    if found.len() == 0 {
        Seq::empty()
    } else if found.last()@.len() > 0 {
        first_results(found.drop_last()).push(found.last()@[0])
    } else {
        first_results(found.drop_last())
    }
}

fn simple_fields(fields: &Vec<(&String, &FieldDef)>, e: &Example) -> (r: String)
    requires
        pairs_ok(fields@),
    ensures
        r@ == simple_text(pair_fields(fields@), e@),
{
    let ghost all = pair_fields(fields@);
    let mut parts: Vec<String> = Vec::new();
    let mut i: usize = 0;
    proof {
        assert(all.take(0) =~= Seq::<FieldSpec>::empty());
        assert(texts(parts@) =~= Seq::<Seq<char>>::empty());
    }
    while i < fields.len()
        invariant
            i <= fields.len(),
            pairs_ok(fields@),
            all == pair_fields(fields@),
            texts(parts@) == simple_parts(all.take(i as int), e@),
        decreases fields.len() - i,
    {
        proof {
            assert(all.take(i + 1).drop_last() =~= all.take(i as int));
            assert(all.take(i + 1).last() == fields@[i as int].1@);
            assert(fields@[i as int].0@ == fields@[i as int].1@.name);
        }
        let (name, _) = fields[i];
        if let Some(v) = e.get(name.as_str()) {
            push_text(&mut parts, around(name.as_str(), ": ", v.to_text().as_str()));
        }
        i = i + 1;
    }
    proof {
        assert(all.take(i as int) =~= all);
    }
    trim_end(join(&parts, "\n\n").as_str())
}

impl TwoStepAdapter {
    /// An adapter.
    pub fn new() -> (r: Self)
        ensures
            r == TwoStepAdapter,
    {
        TwoStepAdapter
    }

    /// The task in plain words.
    pub fn format_task_description(&self, signature: &Signature) -> (r: String)
        ensures
            r@ == join_of(task_parts(signature@), "\n"@),
    {
        let chat = ChatAdapter::new();
        let mut parts: Vec<String> = Vec::new();
        push_text(
            &mut parts,
            "You are a helpful assistant that can solve tasks based on user input.".to_string(),
        );
        let mut inputs = "As input, you will be provided with:\n".to_string();
        inputs.append(chat.describe(&signature.input_fields()).as_str());
        push_text(&mut parts, inputs);
        let mut outputs = "Your outputs must contain:\n".to_string();
        outputs.append(chat.describe(&signature.output_fields()).as_str());
        push_text(&mut parts, outputs);
        push_text(
            &mut parts,
            "You should lay out your outputs in detail so that your answer can be understood by another agent".to_string(),
        );
        if !signature.instructions().is_empty() {
            let mut line = "Specific instructions: ".to_string();
            line.append(signature.instructions());
            push_text(&mut parts, line);
        }
        proof {
            assert(texts(parts@) =~= task_parts(signature@));
        }
        join(&parts, "\n")
    }

    /// The inputs in plain words.
    pub fn format_simple_inputs(&self, signature: &Signature, data: &Example) -> (r: String)
        ensures
            r@ == simple_text(signature@.inputs(), data@),
    {
        simple_fields(&signature.input_fields(), data)
    }

    /// The outputs in plain words.
    pub fn format_simple_outputs(&self, signature: &Signature, data: &Example) -> (r: String)
        ensures
            r@ == simple_text(signature@.outputs(), data@),
    {
        simple_fields(&signature.output_fields(), data)
    }

    /// The messages of the first prompt: the task, a pair for each demonstration,
    /// and the inputs.
    pub fn format_first_pass_messages(
        &self,
        signature: &Signature,
        inputs: &Example,
        demos: &Vec<Example>,
    ) -> (r: Vec<Message>)
        ensures
            message_list(r@) == first_pass(signature@, inputs@, example_list(demos@)),
    {
        let ghost s = signature@;
        let ghost all = example_list(demos@);
        let ghost first = seq![MessageSpec::system(join_of(task_parts(s), "\n"@))];
        let mut messages: Vec<Message> = Vec::new();
        push_message(
            &mut messages,
            Message::system(self.format_task_description(signature).as_str()),
        );
        let mut i: usize = 0;
        proof {
            lemma_example_list(demos@);
            assert(all.take(0) =~= Seq::<ExampleSpec>::empty());
            assert(message_list(messages@) =~= first + simple_demos(s, all.take(0)));
        }
        while i < demos.len()
            invariant
                i <= demos.len(),
                s == signature@,
                all == example_list(demos@),
                all.len() == demos@.len(),
                forall|k: int| 0 <= k < demos@.len() ==> #[trigger] all[k] == demos@[k]@,
                message_list(messages@) == first + simple_demos(s, all.take(i as int)),
            decreases demos.len() - i,
        {
            let ghost demo = demos@[i as int]@;
            proof {
                assert(all.take(i + 1).drop_last() =~= all.take(i as int));
                assert(all.take(i + 1).last() == demo);
            }
            push_message(
                &mut messages,
                Message::user(self.format_simple_inputs(signature, &demos[i]).as_str()),
            );
            push_message(
                &mut messages,
                Message::assistant(self.format_simple_outputs(signature, &demos[i]).as_str()),
            );
            proof {
                let a = MessageSpec::user(simple_text(s.inputs(), demo));
                let b = MessageSpec::assistant(simple_text(s.outputs(), demo));
                let front = simple_demos(s, all.take(i as int));
                assert((first + front).push(a).push(b) =~= first + front.push(a).push(b));
            }
            i = i + 1;
        }
        proof {
            assert(all.take(i as int) =~= all);
        }
        push_message(
            &mut messages,
            Message::user(self.format_simple_inputs(signature, inputs).as_str()),
        );
        messages
    }

    /// The signature of the second prompt: from a text to the output fields.
    pub fn create_extractor_signature(&self, original_signature: &Signature) -> (r: Result<
        Signature,
    >)
        ensures
            gives_sig(r, extractor_sig(original_signature@)),
    {
        let outputs = original_signature.output_names();
        let instructions = around(
            "The input is a text that should contain all the necessary information to produce the fields ",
            tick_list(&outputs).as_str(),
            ". Your job is to extract the fields from the text verbatim. Extract precisely the appropriate value (content) for each field.",
        );
        let mut shorthand = "text -> ".to_string();
        shorthand.append(join(&outputs, ", ").as_str());
        match Signature::from_string(shorthand.as_str()) {
            Ok(s) => Ok(s.with_instructions(instructions.as_str())),
            Err(e) => Err(e),
        }
    }

    /// The inputs of the second prompt: the reply to the first.
    pub fn extraction_inputs(&self, reply: &str) -> (r: Example)
        ensures
            r@ == ExampleSpec::empty().with("text"@, ValueSpec::Text(reply@)),
    {
        Example::new().field("text", reply)
    }

    /// What the second prompts gave: the first result of each, of which there must
    /// be one.
    pub fn collect_extracted(&self, found: Vec<Vec<StrMap<Value>>>) -> (r: Result<
        Vec<StrMap<Value>>,
    >)
        ensures
            match r {
                Ok(v) => v@ == first_results(found@) && v@.len() > 0,
                Err(e) => first_results(found@).len() == 0 && is_lm_error(
                    e,
                    "Extraction failed for all responses"@,
                ),
            },
    {
        let ghost all = found@;
        let mut results: Vec<StrMap<Value>> = Vec::new();
        proof {
            assert(all.take(0) =~= Seq::<Vec<StrMap<Value>>>::empty());
        }
        for list in it: found
            invariant
                it.seq() == all,
                results@ == first_results(all.take(it.index() as int)),
        {
            proof {
                let i = it.index() as int;
                assert(all.take(i + 1).drop_last() =~= all.take(i));
                assert(all.take(i + 1).last() == list);
            }
            let mut rest = list;
            if rest.len() > 0 {
                let first = rest.remove(0);
                results.push(first);
            }
        }
        proof {
            assert(all.take(all.len() as int) =~= all);
        }
        if results.len() == 0 {
            Err(DspyError::LMError("Extraction failed for all responses".to_string()))
        } else {
            Ok(results)
        }
    }
}

} // verus!
