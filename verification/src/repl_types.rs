//! What a code session shows to a model: its variables and its history.

use crate::json::{
    empty_object, json_list, lemma_json_list, new_object, pretty_json, printed_json, push_json,
    put_text, Json, JsonSpec,
};
use crate::text::{
    byte_len, byte_len_of, byte_prefix, byte_prefix_of, cuts_at, cuts_cleanly, dec_of, dec_size,
    join, join_of, push_text, texts,
};
use vstd::prelude::*;

verus! {

/// A text can be cut after `n` bytes, or need not be.
pub open spec fn can_cut(s: Seq<char>, n: nat) -> bool {
    byte_len_of(s) > n ==> cuts_cleanly(s, n as int)
}

/// Whether a text can be cut after `n` bytes, or need not be.
pub fn can_cut_at(s: &str, n: usize) -> (r: bool)
    ensures
        r == can_cut(s@, n as nat),
{
    byte_len(s) <= n || cuts_at(s, n)
}

// ---------------------------------------------------------------------------
// Variables
// ---------------------------------------------------------------------------

/// What is known of a variable in a code session.
#[derive(Debug, Clone)]
pub struct REPLVariable {
    pub name: String,
    pub type_label: String,
    pub desc: String,
    pub constraints: String,
    pub total_length: usize,
    pub preview: String,
}

/// The name of the type of a value.
pub open spec fn type_name_of(j: JsonSpec) -> Seq<char> {
    match j {
        JsonSpec::Null => "null"@,
        JsonSpec::Bool(_) => "boolean"@,
        JsonSpec::Int(_) => "number"@,
        JsonSpec::Float(_) => "number"@,
        JsonSpec::Text(_) => "string"@,
        JsonSpec::Array(_) => "list"@,
        JsonSpec::Object(_) => "dict"@,
    }
}

/// The text of a value that a preview is cut from.
pub open spec fn preview_text(j: JsonSpec) -> Seq<char> {
    match j {
        JsonSpec::Text(s) => s,
        JsonSpec::Null => Seq::empty(),
        JsonSpec::Array(_) => pretty_json(j),
        JsonSpec::Object(_) => pretty_json(j),
        _ => printed_json(j),
    }
}

/// A text cut after `n` bytes, with dots where something was cut.
pub open spec fn preview_of(s: Seq<char>, n: nat) -> Seq<char> {
    if byte_len_of(s) > n {
        byte_prefix_of(s, n as int) + "..."@
    } else {
        s
    }
}

/// What an optional text says; nothing where there is none.
pub open spec fn text_or_empty(s: Option<&str>) -> Seq<char> {
    match s {
        Some(t) => t@,
        None => Seq::empty(),
    }
}

/// How many bytes a preview has at most.
pub open spec fn preview_limit(n: Option<usize>) -> nat {
    match n {
        Some(k) => k as nat,
        None => 500,
    }
}

/// `v` is what is known of a value under a name.
pub open spec fn describes(
    v: REPLVariable,
    name: Seq<char>,
    value: JsonSpec,
    desc: Seq<char>,
    constraints: Seq<char>,
    limit: nat,
) -> bool {
    &&& v.name@ == name
    &&& v.type_label@ == type_name_of(value)
    &&& v.desc@ == desc
    &&& v.constraints@ == constraints
    &&& v.total_length == byte_len_of(preview_text(value))
    &&& v.preview@ == preview_of(preview_text(value), limit)
}

fn get_type_name(value: &Json) -> (r: String)
    ensures
        r@ == type_name_of(value@),
{
    match value {
        Json::Null => "null".to_string(),
        Json::Bool(_) => "boolean".to_string(),
        Json::Unsigned(_) => "number".to_string(),
        Json::Signed(_) => "number".to_string(),
        Json::Float(_) => "number".to_string(),
        Json::Text(_) => "string".to_string(),
        Json::Array(_) => "list".to_string(),
        Json::Object(_) => "dict".to_string(),
    }
}

fn value_text(value: &Json) -> (r: String)
    ensures
        r@ == preview_text(value@),
{
    match value {
        Json::Text(s) => s.clone(),
        Json::Null => {
            let r = String::new();
            proof {
                assert(r@ =~= Seq::<char>::empty());
            }
            r
        },
        Json::Array(_) => value.to_text_pretty(),
        Json::Object(_) => value.to_text_pretty(),
        _ => value.to_text(),
    }
}

/// A text, or the empty text.
pub fn owned_or_empty(s: Option<&str>) -> (r: String)
    ensures
        r@ == text_or_empty(s),
{
    match s {
        Some(t) => t.to_owned(),
        None => {
            let r = String::new();
            proof {
                assert(r@ =~= Seq::<char>::empty());
            }
            r
        },
    }
}

/// What is known of a value under a name. The preview is cut between characters.
pub fn create_repl_variable(
    name: &str,
    value: &Json,
    desc: Option<&str>,
    constraints: Option<&str>,
    preview_chars: Option<usize>,
) -> (r: REPLVariable)
    requires
        can_cut(preview_text(value@), preview_limit(preview_chars)),
    ensures
        describes(
            r,
            name@,
            value@,
            text_or_empty(desc),
            text_or_empty(constraints),
            preview_limit(preview_chars),
        ),
{
    let limit: usize = match preview_chars {
        Some(n) => n,
        None => 500,
    };
    let text = value_text(value);
    let total_length: usize = byte_len(text.as_str());
    let preview = if total_length > limit {
        let mut p = byte_prefix(text.as_str(), limit);
        p.append("...");
        p
    } else {
        text
    };
    REPLVariable {
        name: name.to_owned(),
        type_label: get_type_name(value),
        desc: owned_or_empty(desc),
        constraints: owned_or_empty(constraints),
        total_length,
        preview,
    }
}

/// What is known of a value under a name, unless its preview would be cut within a
/// character.
pub fn try_create_repl_variable(
    name: &str,
    value: &Json,
    desc: Option<&str>,
    constraints: Option<&str>,
    preview_chars: Option<usize>,
) -> (r: Option<REPLVariable>)
    ensures
        match r {
            Some(v) => can_cut(preview_text(value@), preview_limit(preview_chars)) && describes(
                v,
                name@,
                value@,
                text_or_empty(desc),
                text_or_empty(constraints),
                preview_limit(preview_chars),
            ),
            None => !can_cut(preview_text(value@), preview_limit(preview_chars)),
        },
{
    let limit: usize = match preview_chars {
        Some(n) => n,
        None => 500,
    };
    if can_cut_at(value_text(value).as_str(), limit) {
        Some(create_repl_variable(name, value, desc, constraints, preview_chars))
    } else {
        None
    }
}

/// The lines that show a variable.
pub open spec fn variable_lines(v: REPLVariable) -> Seq<Seq<char>> {
    let head = seq![
        "Variable: `"@ + v.name@ + "` (access it in your code)"@,
        "Type: "@ + v.type_label@,
    ];
    let with_desc = if v.desc@.len() > 0 {
        head.push("Description: "@ + v.desc@)
    } else {
        head
    };
    let with_constraints = if v.constraints@.len() > 0 {
        with_desc.push("Constraints: "@ + v.constraints@)
    } else {
        with_desc
    };
    with_constraints.push("Total length: "@ + dec_of(v.total_length as nat) + " characters"@).push(
        "Preview:\n```\n"@ + v.preview@ + "\n```"@,
    )
}

fn wrap(before: &str, s: &str, after: &str) -> (r: String)
    ensures
        r@ == before@ + s@ + after@,
{
    let mut r = before.to_owned();
    r.append(s);
    r.append(after);
    r
}

/// Shows a variable to a model.
pub fn format_repl_variable(v: &REPLVariable) -> (r: String)
    ensures
        r@ == join_of(variable_lines(*v), "\n"@),
{
    let mut lines: Vec<String> = Vec::new();
    push_text(&mut lines, wrap("Variable: `", v.name.as_str(), "` (access it in your code)"));
    let mut kind = "Type: ".to_string();
    kind.append(v.type_label.as_str());
    push_text(&mut lines, kind);
    if !v.desc.as_str().is_empty() {
        let mut line = "Description: ".to_string();
        line.append(v.desc.as_str());
        push_text(&mut lines, line);
    }
    if !v.constraints.as_str().is_empty() {
        let mut line = "Constraints: ".to_string();
        line.append(v.constraints.as_str());
        push_text(&mut lines, line);
    }
    push_text(
        &mut lines,
        wrap("Total length: ", dec_size(v.total_length).as_str(), " characters"),
    );
    push_text(&mut lines, wrap("Preview:\n```\n", v.preview.as_str(), "\n```"));
    proof {
        assert(texts(lines@) =~= variable_lines(*v));
    }
    join(&lines, "\n")
}

// ---------------------------------------------------------------------------
// History
// ---------------------------------------------------------------------------

/// A step of a code session.
#[derive(Debug)]
pub struct REPLEntry {
    pub reasoning: String,
    pub code: String,
    pub output: String,
}

/// What a step says.
pub struct EntrySpec {
    pub reasoning: Seq<char>,
    pub code: Seq<char>,
    pub output: Seq<char>,
}

impl View for REPLEntry {
    type V = EntrySpec;

    open spec fn view(&self) -> EntrySpec {
        EntrySpec { reasoning: self.reasoning@, code: self.code@, output: self.output@ }
    }
}

impl Clone for REPLEntry {
    fn clone(&self) -> (r: Self)
        ensures
            r@ == self@,
    {
        REPLEntry {
            reasoning: self.reasoning.clone(),
            code: self.code.clone(),
            output: self.output.clone(),
        }
    }
}

/// The output of a step, cut after `max` bytes with a note that says so.
pub open spec fn shown_output(output: Seq<char>, max: nat) -> Seq<char> {
    if byte_len_of(output) > max {
        byte_prefix_of(output, max as int) + "\n... (truncated to "@ + dec_of(max) + "/"@ + dec_of(
            byte_len_of(output),
        ) + " chars)"@
    } else {
        output
    }
}

/// How a step is shown to a model.
pub open spec fn entry_text(e: EntrySpec, index: nat, max: nat) -> Seq<char> {
    "=== Step "@ + dec_of(index + 1) + " ===\n"@ + (if e.reasoning.len() > 0 {
        "Reasoning: "@ + e.reasoning + "\n"@
    } else {
        Seq::empty()
    }) + "Code:\n```python\n"@ + e.code + "\n```\nOutput ("@ + dec_of(byte_len_of(e.output))
        + " chars):\n"@ + shown_output(e.output, max)
}

/// Shows a step to a model. Its output is cut between characters.
pub fn format_repl_entry(entry: &REPLEntry, index: usize, max_output_chars: usize) -> (r: String)
    requires
        index < usize::MAX,
        can_cut(entry.output@, max_output_chars as nat),
    ensures
        r@ == entry_text(entry@, index as nat, max_output_chars as nat),
{
    let total: usize = byte_len(entry.output.as_str());
    let output = if total > max_output_chars {
        let mut o = byte_prefix(entry.output.as_str(), max_output_chars);
        o.append("\n... (truncated to ");
        o.append(dec_size(max_output_chars).as_str());
        o.append("/");
        o.append(dec_size(total).as_str());
        o.append(" chars)");
        o
    } else {
        entry.output.clone()
    };
    let mut r = "=== Step ".to_string();
    r.append(dec_size(index + 1).as_str());
    r.append(" ===\n");
    let ghost head = r@;
    if !entry.reasoning.as_str().is_empty() {
        r.append("Reasoning: ");
        r.append(entry.reasoning.as_str());
        r.append("\n");
        proof {
            assert(r@ =~= head + ("Reasoning: "@ + entry.reasoning@ + "\n"@));
        }
    } else {
        proof {
            assert(r@ =~= head + Seq::<char>::empty());
        }
    }
    r.append("Code:\n```python\n");
    r.append(entry.code.as_str());
    r.append("\n```\nOutput (");
    r.append(dec_size(total).as_str());
    r.append(" chars):\n");
    r.append(output.as_str());
    r
}

/// The steps of a code session. Appending a step makes a new history.
#[derive(Debug)]
pub struct REPLHistory {
    entries: Vec<REPLEntry>,
}

/// What the steps of a list say.
pub open spec fn entry_list(v: Seq<REPLEntry>) -> Seq<EntrySpec> {
    v.map_values(|e: REPLEntry| e@)
}

impl View for REPLHistory {
    type V = Seq<EntrySpec>;

    closed spec fn view(&self) -> Seq<EntrySpec> {
        entry_list(self.entries@)
    }
}

/// The texts of steps.
pub open spec fn entry_texts(h: Seq<EntrySpec>, max: nat) -> Seq<Seq<char>> {
    Seq::new(h.len(), |i: int| entry_text(h[i], i as nat, max))
}

/// How a history is shown to a model.
pub open spec fn history_text(h: Seq<EntrySpec>, max: nat) -> Seq<char> {
    if h.len() == 0 {
        "You have not interacted with the REPL environment yet."@
    } else {
        join_of(entry_texts(h, max), "\n"@)
    }
}

/// How many bytes of an output are shown.
pub open spec fn output_limit(n: Option<usize>) -> nat {
    match n {
        Some(k) => k as nat,
        None => 5000,
    }
}

/// The outputs of all steps can be cut after `max` bytes.
pub open spec fn all_can_cut(h: Seq<EntrySpec>, max: nat) -> bool {
    forall|i: int| 0 <= i < h.len() ==> can_cut((#[trigger] h[i]).output, max)
}

/// A step in JSON.
pub open spec fn entry_json(e: EntrySpec) -> JsonSpec {
    JsonSpec::Object(
        empty_object().insert("reasoning"@, JsonSpec::Text(e.reasoning)).insert(
            "code"@,
            JsonSpec::Text(e.code),
        ).insert("output"@, JsonSpec::Text(e.output)),
    )
}

fn copy_entries(v: &Vec<REPLEntry>) -> (r: Vec<REPLEntry>)
    ensures
        entry_list(r@) == entry_list(v@),
{
    let mut r: Vec<REPLEntry> = Vec::new();
    let mut i: usize = 0;
    while i < v.len()
        invariant
            i <= v.len(),
            r@.len() == i,
            forall|k: int| 0 <= k < i ==> (#[trigger] r@[k])@ == v@[k]@,
        decreases v.len() - i,
    {
        r.push(v[i].clone());
        i = i + 1;
    }
    proof {
        assert(entry_list(r@) =~= entry_list(v@));
    }
    r
}

impl REPLHistory {
    /// A history without steps.
    pub fn new() -> (r: Self)
        ensures
            r@ == Seq::<EntrySpec>::empty(),
    {
        let r = REPLHistory { entries: Vec::new() };
        proof {
            assert(r@ =~= Seq::<EntrySpec>::empty());
        }
        r
    }

    /// A new history with a step appended.
    pub fn append(&self, reasoning: &str, code: &str, output: &str) -> (r: REPLHistory)
        ensures
            r@ == self@.push(
                EntrySpec { reasoning: reasoning@, code: code@, output: output@ },
            ),
    {
        let mut entries = copy_entries(&self.entries);
        let ghost before = entry_list(entries@);
        entries.push(
            REPLEntry {
                reasoning: reasoning.to_owned(),
                code: code.to_owned(),
                output: output.to_owned(),
            },
        );
        proof {
            assert(entry_list(entries@) =~= before.push(
                EntrySpec { reasoning: reasoning@, code: code@, output: output@ },
            ));
        }
        REPLHistory { entries }
    }

    /// Shows the history to a model.
    pub fn format(&self, max_output_chars: Option<usize>) -> (r: String)
        requires
            all_can_cut(self@, output_limit(max_output_chars)),
        ensures
            r@ == history_text(self@, output_limit(max_output_chars)),
    {
        let max: usize = match max_output_chars {
            Some(n) => n,
            None => 5000,
        };
        if self.entries.len() == 0 {
            return "You have not interacted with the REPL environment yet.".to_string();
        }
        let ghost want = entry_texts(self@, max as nat);
        let mut parts: Vec<String> = Vec::new();
        let mut i: usize = 0;
        proof {
            assert(texts(parts@) =~= want.take(0));
        }
        while i < self.entries.len()
            invariant
                i <= self.entries.len(),
                want == entry_texts(self@, max as nat),
                self@ == entry_list(self.entries@),
                all_can_cut(self@, max as nat),
                texts(parts@) == want.take(i as int),
            decreases self.entries.len() - i,
        {
            let n: usize = self.entries.len();
            proof {
                assert(self@[i as int] == self.entries@[i as int]@);
                assert(can_cut(self@[i as int].output, max as nat));
                assert(i < n);
            }
            push_text(&mut parts, format_repl_entry(&self.entries[i], i, max));
            proof {
                assert(want.take(i + 1) =~= want.take(i as int).push(want[i as int]));
            }
            i = i + 1;
        }
        proof {
            assert(want.take(i as int) =~= want);
        }
        join(&parts, "\n")
    }

    /// Whether the outputs of all steps can be cut after `max` bytes.
    pub fn can_format(&self, max: usize) -> (r: bool)
        ensures
            r == all_can_cut(self@, max as nat),
    {
        let mut i: usize = 0;
        while i < self.entries.len()
            invariant
                i <= self.entries.len(),
                self@ == entry_list(self.entries@),
                forall|k: int| 0 <= k < i ==> can_cut((#[trigger] self@[k]).output, max as nat),
            decreases self.entries.len() - i,
        {
            if !can_cut_at(self.entries[i].output.as_str(), max) {
                proof {
                    assert(self@[i as int] == self.entries@[i as int]@);
                    assert(!can_cut(self@[i as int].output, max as nat));
                }
                return false;
            }
            proof {
                assert(self@[i as int] == self.entries@[i as int]@);
            }
            i = i + 1;
        }
        true
    }

    /// The steps.
    pub fn entries(&self) -> (r: &Vec<REPLEntry>)
        ensures
            entry_list(r@) == self@,
    {
        &self.entries
    }

    /// How many steps there are.
    pub fn len(&self) -> (r: usize)
        ensures
            r == self@.len(),
    {
        self.entries.len()
    }

    /// Whether there are no steps.
    pub fn is_empty(&self) -> (r: bool)
        ensures
            r == (self@.len() == 0),
    {
        self.entries.len() == 0
    }

    /// The steps in JSON.
    pub fn to_json(&self) -> (r: Json)
        ensures
            r@ == JsonSpec::Array(self@.map_values(|e: EntrySpec| entry_json(e))),
    {
        let ghost want = self@.map_values(|e: EntrySpec| entry_json(e));
        let mut items: Vec<Json> = Vec::new();
        let mut i: usize = 0;
        proof {
            lemma_json_list(items@);
            assert(json_list(items@) =~= want.take(0));
        }
        while i < self.entries.len()
            invariant
                i <= self.entries.len(),
                self@ == entry_list(self.entries@),
                want == self@.map_values(|e: EntrySpec| entry_json(e)),
                json_list(items@) == want.take(i as int),
            decreases self.entries.len() - i,
        {
            let mut m = new_object();
            put_text(&mut m, "reasoning", self.entries[i].reasoning.as_str());
            put_text(&mut m, "code", self.entries[i].code.as_str());
            put_text(&mut m, "output", self.entries[i].output.as_str());
            push_json(&mut items, Json::Object(m));
            proof {
                assert(self@[i as int] == self.entries@[i as int]@);
                assert(want.take(i + 1) =~= want.take(i as int).push(want[i as int]));
            }
            i = i + 1;
        }
        proof {
            assert(want.take(i as int) =~= want);
        }
        Json::Array(items)
    }
}

impl Default for REPLHistory {
    /// A history without steps.
    fn default() -> (r: Self)
        ensures
            r@ == Seq::<EntrySpec>::empty(),
    {
        REPLHistory::new()
    }
}

impl Clone for REPLHistory {
    fn clone(&self) -> (r: Self)
        ensures
            r@ == self@,
    {
        REPLHistory { entries: copy_entries(&self.entries) }
    }
}

} // verus!
