//! Training data for models: its formats, and what can be wrong with it.

use crate::error::{is_other_error, DspyError, Result};
use crate::json::{
    json_list, json_object, lemma_json_list, lemma_json_object, printed_json, Json, JsonFloat,
    JsonSpec,
};
use crate::prediction::keys_of;
use crate::strmap::StrMap;
use crate::text::{dec_of, dec_size, same, sort_texts, sorted_of, texts};
use crate::tool::{quote_list, quoted_list};
use vstd::prelude::*;

verus! {

/// Where the training of a model stands.
#[derive(Debug, Clone, Copy, PartialEq, Eq, Structural)]
pub enum TrainingStatus {
    NotStarted,
    Pending,
    Running,
    Succeeded,
    Failed,
    Cancelled,
}

/// The format of training data.
#[derive(Debug, Clone, Copy, PartialEq, Eq, Structural)]
pub enum TrainDataFormat {
    Chat,
    Completion,
    GrpoChat,
}

impl TrainingStatus {
    /// The name of the status in data.
    pub open spec fn name(self) -> Seq<char> {
        match self {
            TrainingStatus::NotStarted => "not_started"@,
            TrainingStatus::Pending => "pending"@,
            TrainingStatus::Running => "running"@,
            TrainingStatus::Succeeded => "succeeded"@,
            TrainingStatus::Failed => "failed"@,
            TrainingStatus::Cancelled => "cancelled"@,
        }
    }

    /// The name of the status in data.
    pub fn to_text(&self) -> (r: String)
        ensures
            r@ == self.name(),
    {
        match self {
            TrainingStatus::NotStarted => "not_started".to_string(),
            TrainingStatus::Pending => "pending".to_string(),
            TrainingStatus::Running => "running".to_string(),
            TrainingStatus::Succeeded => "succeeded".to_string(),
            TrainingStatus::Failed => "failed".to_string(),
            TrainingStatus::Cancelled => "cancelled".to_string(),
        }
    }
}

impl TrainDataFormat {
    /// The name of the format in data.
    pub open spec fn name(self) -> Seq<char> {
        match self {
            TrainDataFormat::Chat => "chat"@,
            TrainDataFormat::Completion => "completion"@,
            TrainDataFormat::GrpoChat => "grpo_chat"@,
        }
    }

    /// The name of the format in data.
    pub fn to_text(&self) -> (r: String)
        ensures
            r@ == self.name(),
    {
        match self {
            TrainDataFormat::Chat => "chat".to_string(),
            TrainDataFormat::Completion => "completion".to_string(),
            TrainDataFormat::GrpoChat => "grpo_chat".to_string(),
        }
    }
}

/// A message in training data.
#[derive(Debug)]
pub struct TrainingMessage {
    pub role: String,
    pub content: String,
}

impl TrainingMessage {
    /// A message of a role.
    pub fn new(role: &str, content: &str) -> (r: Self)
        ensures
            r.role@ == role@,
            r.content@ == content@,
    {
        TrainingMessage { role: role.to_owned(), content: content.to_owned() }
    }

    /// A message from the system.
    pub fn system(content: &str) -> (r: Self)
        ensures
            r.role@ == "system"@,
            r.content@ == content@,
    {
        TrainingMessage::new("system", content)
    }

    /// A message from the user.
    pub fn user(content: &str) -> (r: Self)
        ensures
            r.role@ == "user"@,
            r.content@ == content@,
    {
        TrainingMessage::new("user", content)
    }

    /// A message from the model.
    pub fn assistant(content: &str) -> (r: Self)
        ensures
            r.role@ == "assistant"@,
            r.content@ == content@,
    {
        TrainingMessage::new("assistant", content)
    }
}

impl Clone for TrainingMessage {
    fn clone(&self) -> (r: Self)
        ensures
            r.role@ == self.role@,
            r.content@ == self.content@,
    {
        TrainingMessage { role: self.role.clone(), content: self.content.clone() }
    }
}

/// A dialogue, its completion and the reward, which is finite and held as JSON
/// prints it.
#[derive(Debug)]
pub struct GRPOChatData {
    pub messages: Vec<TrainingMessage>,
    pub completion: TrainingMessage,
    pub reward: JsonFloat,
}

/// Dialogues that belong together.
#[derive(Debug)]
pub struct GRPOGroup {
    pub batch_id: Option<usize>,
    pub group: Vec<GRPOChatData>,
}

/// Where a job of reinforcement stands.
#[derive(Debug)]
pub struct GRPOStatus {
    pub job_id: String,
    pub status: Option<String>,
    pub current_model: String,
    pub checkpoints: StrMap<String>,
    pub last_checkpoint: Option<String>,
    pub pending_batch_ids: Vec<usize>,
}

/// The format of the data that an adapter makes.
pub fn infer_data_format(adapter_name: &str) -> (r: Result<TrainDataFormat>)
    ensures
        if adapter_name@ == "ChatAdapter"@ || adapter_name@ == "XMLAdapter"@ {
            r matches Ok(f) && f == TrainDataFormat::Chat
        } else {
            r matches Err(e) && is_other_error(
                e,
                "Could not infer the data format for adapter: "@ + adapter_name@,
            )
        },
{
    if same(adapter_name, "ChatAdapter") || same(adapter_name, "XMLAdapter") {
        return Ok(TrainDataFormat::Chat);
    }
    let mut m = "Could not infer the data format for adapter: ".to_string();
    m.append(adapter_name);
    Err(DspyError::Other(m))
}

// ---------------------------------------------------------------------------
// What can be wrong
// ---------------------------------------------------------------------------

/// A list has the keys of an object, each once.
pub open spec fn lists_keys(m: Map<Seq<char>, JsonSpec>, keys: Seq<Seq<char>>) -> bool {
    keys.no_duplicates() && keys.to_set() == m.dom()
}

/// A text names the keys of an object in order, after an opening.
pub open spec fn names_keys(
    text: Seq<char>,
    opening: Seq<char>,
    m: Map<Seq<char>, JsonSpec>,
) -> bool {
    exists|keys: Seq<Seq<char>>| #[trigger]
        lists_keys(m, keys) && text == opening + quoted_list(sorted_of(keys))
}

/// A role that a message can have.
pub open spec fn is_role(role: Seq<char>) -> bool {
    role == "assistant"@ || role == "system"@ || role == "user"@
}

/// The text that a member is, or the empty text.
pub open spec fn member_or_empty(m: Map<Seq<char>, JsonSpec>, key: Seq<char>) -> Seq<char> {
    if m.contains_key(key) {
        match m[key] {
            JsonSpec::Text(t) => t,
            _ => Seq::empty(),
        }
    } else {
        Seq::empty()
    }
}

/// `e` is what is wrong with a message.
pub open spec fn message_error(j: JsonSpec, e: Option<Seq<char>>) -> bool {
    match j {
        JsonSpec::Object(m) => if m.dom() != set!["content"@, "role"@] {
            e matches Some(t) && names_keys(
                t,
                "Expected Keys: [\"content\", \"role\"]; Found Keys: "@,
                m,
            )
        } else if !is_role(member_or_empty(m, "role"@)) {
            e == Some(
                "Expected Roles: [\"assistant\", \"system\", \"user\"]; Found Role: "@
                    + member_or_empty(m, "role"@),
            )
        } else if !(m["content"@] is Text) {
            e == Some("Expected Content Type: string"@)
        } else {
            e is None
        },
        _ => e == Some("Not a dictionary -- found: "@ + printed_json(j)),
    }
}

/// `e` is what is wrong with the first message that something is wrong with.
pub open spec fn messages_error(items: Seq<JsonSpec>, e: Option<Seq<char>>) -> bool {
    match e {
        None => forall|i: int| 0 <= i < items.len() ==> message_error(#[trigger] items[i], None),
        Some(t) => exists|i: int, x: Seq<char>|
            0 <= i < items.len() && #[trigger] message_error(items[i], Some(x)) && (forall|k: int|
                0 <= k < i ==> message_error(#[trigger] items[k], None)) && t
                == "Error in message at index "@ + dec_of(i as nat) + ": "@ + x,
    }
}

/// `e` is what is wrong with an item in chat format.
pub open spec fn chat_error(j: JsonSpec, e: Option<Seq<char>>) -> bool {
    match j {
        JsonSpec::Object(m) => if m.dom() != set!["messages"@] {
            e matches Some(t) && names_keys(
                t,
                "Expected Keys: [\"messages\"]; Found Keys: "@,
                m,
            )
        } else {
            match m["messages"@] {
                JsonSpec::Array(items) => messages_error(items, e),
                _ => e == Some("The value of 'messages' should be an array"@),
            }
        },
        _ => e is None,
    }
}

/// `e` is what is wrong with an item in completion format.
pub open spec fn completion_error(j: JsonSpec, e: Option<Seq<char>>) -> bool {
    match j {
        JsonSpec::Object(m) => if m.dom() != set!["completion"@, "prompt"@] {
            e matches Some(t) && names_keys(
                t,
                "Expected Keys: [\"completion\", \"prompt\"]; Found Keys: "@,
                m,
            )
        } else if !(m["prompt"@] is Text) {
            e == Some("Expected 'prompt' to be of type string"@)
        } else if !(m["completion"@] is Text) {
            e == Some("Expected 'completion' to be of type string"@)
        } else {
            e is None
        },
        _ => e == Some("Not a dictionary -- found: "@ + printed_json(j)),
    }
}

/// `e` is what is wrong with an item in a format.
pub open spec fn item_error(j: JsonSpec, format: TrainDataFormat, e: Option<Seq<char>>) -> bool {
    match format {
        TrainDataFormat::Chat => chat_error(j, e),
        TrainDataFormat::Completion => completion_error(j, e),
        TrainDataFormat::GrpoChat => e is None,
    }
}

/// What an optional text says.
pub open spec fn said(e: Option<String>) -> Option<Seq<char>> {
    match e {
        Some(t) => Some(t@),
        None => None,
    }
}

fn name_keys(m: &StrMap<Json>, opening: &str) -> (r: String)
    ensures
        names_keys(r@, opening@, json_object(*m)),
{
    let keys = keys_of(m);
    let ghost listed = texts(keys@);
    let mut r = opening.to_owned();
    r.append(quote_list(&sort_texts(&keys)).as_str());
    proof {
        use_type_invariant(m);
        m.lemma_shape();
        lemma_json_object(*m);
        assert(listed.to_set() =~= json_object(*m).dom()) by {
            assert forall|k: Seq<char>| listed.to_set().contains(k) <==> json_object(
                *m,
            ).dom().contains(k) by {
                assert(m@.contains_key(k) <==> listed.contains(k));
            }
        }
        assert(lists_keys(json_object(*m), listed));
    }
    r
}

/// Whether an object has two keys and no other.
fn has_just(m: &StrMap<Json>, a: &str, b: &str) -> (r: bool)
    requires
        a@ != b@,
    ensures
        r == (json_object(*m).dom() == set![a@, b@]),
{
    proof {
        use_type_invariant(m);
        m.lemma_shape();
        lemma_json_object(*m);
    }
    let ghost dom = m@.dom();
    let ghost keys = m.keys();
    if m.contains_key(a) && m.contains_key(b) && m.len() == 2 {
        proof {
            let i = choose|i: int| 0 <= i < keys.len() && keys[i] == a@;
            let j = choose|j: int| 0 <= j < keys.len() && keys[j] == b@;
            assert(keys.contains(a@) && keys.contains(b@));
            assert forall|k: Seq<char>| dom.contains(k) <==> set![a@, b@].contains(k) by {
                if dom.contains(k) {
                    assert(m@.contains_key(k));
                    let x = choose|x: int| 0 <= x < keys.len() && keys[x] == k;
                    assert(x == i || x == j);
                }
                if k == a@ || k == b@ {
                    assert(m@.contains_key(k));
                }
            }
            assert(dom =~= set![a@, b@]);
        }
        true
    } else {
        proof {
            if dom == set![a@, b@] {
                assert(dom.contains(a@));
                assert(dom.contains(b@));
                assert(m@.contains_key(a@) && m@.contains_key(b@));
                assert forall|x: int| 0 <= x < keys.len() implies keys[x] == a@ || keys[x]
                    == b@ by {
                    assert(keys.contains(keys[x]));
                    assert(m@.contains_key(keys[x]));
                    assert(dom.contains(keys[x]));
                }
                let i = choose|i: int| 0 <= i < keys.len() && keys[i] == a@;
                let j = choose|j: int| 0 <= j < keys.len() && keys[j] == b@;
                assert(keys.contains(a@) && keys.contains(b@));
                assert(keys.len() >= 2);
                if keys.len() > 2 {
                    let x = if i != 0 && j != 0 {
                        0int
                    } else if i != 1 && j != 1 {
                        1int
                    } else {
                        2int
                    };
                    assert(keys[x] == a@ || keys[x] == b@);
                    assert(x != i && x != j);
                }
            }
        }
        false
    }
}

fn has_just_one(m: &StrMap<Json>, a: &str) -> (r: bool)
    ensures
        r == (json_object(*m).dom() == set![a@]),
{
    proof {
        use_type_invariant(m);
        m.lemma_shape();
        lemma_json_object(*m);
    }
    let ghost dom = m@.dom();
    let ghost keys = m.keys();
    if m.contains_key(a) && m.len() == 1 {
        proof {
            assert(keys.contains(a@));
            assert(keys[0] == a@);
            assert forall|k: Seq<char>| dom.contains(k) <==> set![a@].contains(k) by {
                if dom.contains(k) {
                    assert(m@.contains_key(k));
                    assert(keys.contains(k));
                }
                if k == a@ {
                    assert(m@.contains_key(k));
                }
            }
            assert(dom =~= set![a@]);
        }
        true
    } else {
        proof {
            if dom == set![a@] {
                assert(dom.contains(a@));
                assert(m@.contains_key(a@));
                assert(keys.contains(a@));
                if keys.len() > 1 {
                    assert(keys.contains(keys[0]) && keys.contains(keys[1]));
                    assert(m@.contains_key(keys[0]) && m@.contains_key(keys[1]));
                    assert(dom.contains(keys[0]) && dom.contains(keys[1]));
                }
            }
        }
        false
    }
}

fn find_data_error_chat_message(message: &Json) -> (r: Option<String>)
    ensures
        message_error(message@, said(r)),
{
    proof {
        reveal_strlit("content");
        reveal_strlit("role");
        reveal_strlit("");
        assert("content"@.len() == 7 && "role"@.len() == 4);
        assert(""@ =~= Seq::<char>::empty());
    }
    match message {
        Json::Object(m) => {
            proof {
                use_type_invariant(m);
                lemma_json_object(*m);
            }
            if !has_just(m, "content", "role") {
                return Some(
                    name_keys(m, "Expected Keys: [\"content\", \"role\"]; Found Keys: "),
                );
            }
            proof {
                assert(json_object(*m).dom().contains("content"@));
                assert(json_object(*m).dom().contains("role"@));
            }
            let role: &str = match m.get("role") {
                Some(Json::Text(t)) => t.as_str(),
                _ => "",
            };
            if !(same(role, "assistant") || same(role, "system") || same(role, "user")) {
                let mut e =
                    "Expected Roles: [\"assistant\", \"system\", \"user\"]; Found Role: ".to_string();
                e.append(role);
                return Some(e);
            }
            let is_text = match m.get("content") {
                Some(Json::Text(_)) => true,
                _ => false,
            };
            if !is_text {
                return Some("Expected Content Type: string".to_string());
            }
            None
        },
        _ => {
            let mut e = "Not a dictionary -- found: ".to_string();
            e.append(message.to_text().as_str());
            Some(e)
        },
    }
}

fn find_data_error_chat(data: &Json) -> (r: Option<String>)
    ensures
        chat_error(data@, said(r)),
{
    match data {
        Json::Object(m) => {
            proof {
                use_type_invariant(m);
                lemma_json_object(*m);
            }
            if !has_just_one(m, "messages") {
                return Some(name_keys(m, "Expected Keys: [\"messages\"]; Found Keys: "));
            }
            proof {
                assert(json_object(*m).dom().contains("messages"@));
            }
            match m.get("messages") {
                Some(Json::Array(items)) => {
                    let ghost all = json_list(items@);
                    let mut i: usize = 0;
                    proof {
                        lemma_json_list(items@);
                    }
                    while i < items.len()
                        invariant
                            i <= items.len(),
                            all == json_list(items@),
                            all.len() == items@.len(),
                            forall|k: int|
                                0 <= k < items@.len() ==> #[trigger] all[k] == items@[k]@,
                            forall|k: int| 0 <= k < i ==> message_error(#[trigger] all[k], None),
                            data@ == JsonSpec::Object(json_object(*m)),
                            json_object(*m).dom() == set!["messages"@],
                            json_object(*m)["messages"@] == JsonSpec::Array(all),
                        decreases items.len() - i,
                    {
                        proof {
                            assert(all[i as int] == items@[i as int]@);
                        }
                        if let Some(x) = find_data_error_chat_message(&items[i]) {
                            let mut e = "Error in message at index ".to_string();
                            e.append(dec_size(i).as_str());
                            e.append(": ");
                            e.append(x.as_str());
                            proof {
                                assert(message_error(all[i as int], Some(x@)));
                            }
                            return Some(e);
                        }
                        i = i + 1;
                    }
                    None
                },
                _ => Some("The value of 'messages' should be an array".to_string()),
            }
        },
        _ => None,
    }
}

fn find_data_error_completion(data: &Json) -> (r: Option<String>)
    ensures
        completion_error(data@, said(r)),
{
    proof {
        reveal_strlit("completion");
        reveal_strlit("prompt");
        assert("completion"@.len() == 10 && "prompt"@.len() == 6);
    }
    match data {
        Json::Object(m) => {
            proof {
                use_type_invariant(m);
                lemma_json_object(*m);
            }
            if !has_just(m, "completion", "prompt") {
                return Some(
                    name_keys(m, "Expected Keys: [\"completion\", \"prompt\"]; Found Keys: "),
                );
            }
            proof {
                assert(json_object(*m).dom().contains("completion"@));
                assert(json_object(*m).dom().contains("prompt"@));
            }
            let prompt = match m.get("prompt") {
                Some(Json::Text(_)) => true,
                _ => false,
            };
            if !prompt {
                return Some("Expected 'prompt' to be of type string".to_string());
            }
            let completion = match m.get("completion") {
                Some(Json::Text(_)) => true,
                _ => false,
            };
            if !completion {
                return Some("Expected 'completion' to be of type string".to_string());
            }
            None
        },
        _ => {
            let mut e = "Not a dictionary -- found: ".to_string();
            e.append(data.to_text().as_str());
            Some(e)
        },
    }
}

/// Checks training data in a format. The error names the first item that something
/// is wrong with.
pub fn validate_data_format(data: &Vec<Json>, data_format: TrainDataFormat) -> (r: Result<()>)
    ensures
        match r {
            Ok(_) => forall|i: int|
                0 <= i < data@.len() ==> item_error((#[trigger] data@[i])@, data_format, None),
            Err(e) => exists|i: int, x: Seq<char>|
                0 <= i < data@.len() && #[trigger] item_error(data@[i]@, data_format, Some(x)) && (
                forall|k: int|
                    0 <= k < i ==> item_error((#[trigger] data@[k])@, data_format, None))
                    && is_other_error(
                    e,
                    "Data format error at index "@ + dec_of(i as nat) + ": "@ + x,
                ),
        },
{
    let mut i: usize = 0;
    while i < data.len()
        invariant
            i <= data.len(),
            forall|k: int|
                0 <= k < i ==> item_error((#[trigger] data@[k])@, data_format, None),
        decreases data.len() - i,
    {
        let found = match data_format {
            TrainDataFormat::Chat => find_data_error_chat(&data[i]),
            TrainDataFormat::Completion => find_data_error_completion(&data[i]),
            TrainDataFormat::GrpoChat => None,
        };
        match found {
            Some(x) => {
                let mut m = "Data format error at index ".to_string();
                m.append(dec_size(i).as_str());
                m.append(": ");
                m.append(x.as_str());
                proof {
                    assert(item_error(data@[i as int]@, data_format, Some(x@)));
                }
                return Err(DspyError::Other(m));
            },
            None => {},
        }
        i = i + 1;
    }
    Ok(())
}

} // verus!
