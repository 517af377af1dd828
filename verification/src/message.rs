//! Chat messages.

use vstd::prelude::*;

verus! {

/// What a message says.
pub struct MessageSpec {
    pub role: Seq<char>,
    pub content: Seq<char>,
}

/// A chat message.
#[derive(Debug)]
pub struct Message {
    pub role: String,
    pub content: String,
}

impl View for Message {
    type V = MessageSpec;

    open spec fn view(&self) -> MessageSpec {
        MessageSpec { role: self.role@, content: self.content@ }
    }
}

impl Clone for Message {
    fn clone(&self) -> (r: Self)
        ensures
            r@ == self@,
    {
        Message { role: self.role.clone(), content: self.content.clone() }
    }
}

impl MessageSpec {
    pub open spec fn system(content: Seq<char>) -> MessageSpec {
        MessageSpec { role: "system"@, content }
    }

    pub open spec fn user(content: Seq<char>) -> MessageSpec {
        MessageSpec { role: "user"@, content }
    }

    pub open spec fn assistant(content: Seq<char>) -> MessageSpec {
        MessageSpec { role: "assistant"@, content }
    }
}

impl Message {
    /// A message from the system.
    pub fn system(content: &str) -> (r: Self)
        ensures
            r@ == MessageSpec::system(content@),
    {
        Message { role: "system".to_string(), content: content.to_owned() }
    }

    /// A message from the user.
    pub fn user(content: &str) -> (r: Self)
        ensures
            r@ == MessageSpec::user(content@),
    {
        Message { role: "user".to_string(), content: content.to_owned() }
    }

    /// A message from the model.
    pub fn assistant(content: &str) -> (r: Self)
        ensures
            r@ == MessageSpec::assistant(content@),
    {
        Message { role: "assistant".to_string(), content: content.to_owned() }
    }
}

/// What the messages of a list say.
pub open spec fn message_list(v: Seq<Message>) -> Seq<MessageSpec> {
    v.map_values(|m: Message| m@)
}

/// Appends a message to a list.
pub fn push_message(v: &mut Vec<Message>, m: Message)
    ensures
        message_list(final(v)@) == message_list(old(v)@).push(m@),
{
    v.push(m);
    proof {
        assert(message_list(v@) =~= message_list(old(v)@).push(m@));
    }
}

/// A copy of a list of messages.
pub fn copy_messages(v: &Vec<Message>) -> (r: Vec<Message>)
    ensures
        message_list(r@) == message_list(v@),
{
    let mut r: Vec<Message> = Vec::new();
    let mut i: usize = 0;
    while i < v.len()
        invariant
            i <= v.len(),
            message_list(r@) == message_list(v@).take(i as int),
        decreases v.len() - i,
    {
        push_message(&mut r, v[i].clone());
        proof {
            assert(message_list(v@).take(i + 1) =~= message_list(v@).take(i as int).push(
                v@[i as int]@,
            ));
        }
        i = i + 1;
    }
    proof {
        assert(message_list(v@).take(i as int) =~= message_list(v@));
    }
    r
}

} // verus!
