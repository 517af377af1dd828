//! The talk with a sandbox that runs code: one message a line, in JSON-RPC.

use crate::interpreter::{CodeInterpreterError, ExecutionResult, FinalOutput};
use crate::json::{
    copy_object, empty_object, json_list, json_object, member_of, member_text, nat_in, new_object,
    parsed_json, printed_json, push_json, put, put_text, text_in, Json, JsonSpec,
};
use crate::signature::opt_view;
use crate::strmap::StrMap;
use crate::text::{push_text, same, texts, trim, trim_of};
use vstd::prelude::*;

verus! {

/// What a sandbox is made with. `T` is a handle to a tool.
#[derive(Debug)]
pub struct SandboxedInterpreterOptions<T> {
    pub deno_command: String,
    /// The tools that code may call.
    pub tools: StrMap<T>,
}

impl<T> SandboxedInterpreterOptions<T> {
    /// The options that hold where none are given.
    pub fn default_options() -> (r: Self)
        ensures
            r.deno_command@ == "deno"@,
            r.tools.keys() == Seq::<Seq<char>>::empty(),
    {
        SandboxedInterpreterOptions { deno_command: "deno".to_string(), tools: StrMap::new() }
    }
}

/// A sandbox, as far as the talk with it goes.
#[derive(Debug)]
pub struct SandboxedInterpreter<T> {
    pub deno_command: String,
    pub tools: StrMap<T>,
    /// The number of the last request.
    pub request_id: u64,
    /// The sandbox knows the tools.
    pub registered: bool,
}

// ---------------------------------------------------------------------------
// Messages
// ---------------------------------------------------------------------------

/// A request.
pub open spec fn request_of(method: Seq<char>, params: JsonSpec, id: JsonSpec) -> JsonSpec {
    JsonSpec::Object(
        empty_object().insert("jsonrpc"@, JsonSpec::Text("2.0"@)).insert(
            "method"@,
            JsonSpec::Text(method),
        ).insert("params"@, params).insert("id"@, id),
    )
}

/// The answer to a request.
pub open spec fn answer_of(result: JsonSpec, id: JsonSpec) -> JsonSpec {
    JsonSpec::Object(
        empty_object().insert("jsonrpc"@, JsonSpec::Text("2.0"@)).insert("result"@, result).insert(
            "id"@,
            id,
        ),
    )
}

/// The refusal of a request.
pub open spec fn refusal_of(message: Seq<char>, id: JsonSpec) -> JsonSpec {
    JsonSpec::Object(
        empty_object().insert("jsonrpc"@, JsonSpec::Text("2.0"@)).insert(
            "error"@,
            JsonSpec::Object(
                empty_object().insert("code"@, JsonSpec::Int(-32099)).insert(
                    "message"@,
                    JsonSpec::Text(message),
                ),
            ),
        ).insert("id"@, id),
    )
}

/// The line that a message makes.
pub open spec fn line_of(j: JsonSpec) -> Seq<char> {
    printed_json(j) + "\n"@
}

/// An object with one member.
pub open spec fn single(key: Seq<char>, value: JsonSpec) -> JsonSpec {
    JsonSpec::Object(empty_object().insert(key, value))
}

fn line_for(j: &Json) -> (r: String)
    ensures
        r@ == line_of(j@),
{
    let mut r = j.to_text();
    r.append("\n");
    r
}

fn request_line(method: &str, params: Json, id: Json) -> (r: String)
    ensures
        r@ == line_of(request_of(method@, params@, id@)),
{
    let mut m = new_object();
    put_text(&mut m, "jsonrpc", "2.0");
    put_text(&mut m, "method", method);
    put(&mut m, "params", params);
    put(&mut m, "id", id);
    line_for(&Json::Object(m))
}

// ---------------------------------------------------------------------------
// What the sandbox says
// ---------------------------------------------------------------------------

/// A result gives a text, or fails with one.
pub open spec fn gives_line(
    r: Result<String, CodeInterpreterError>,
    want: Result<Seq<char>, Seq<char>>,
) -> bool {
    match want {
        Ok(t) => r matches Ok(s) && s@ == t,
        Err(m) => r matches Err(e) && e.message@ == m,
    }
}

/// What a line says; an empty one means that the sandbox is gone.
pub fn received(line: &str) -> (r: Result<String, CodeInterpreterError>)
    ensures
        gives_line(
            r,
            if line@.len() == 0 {
                Err("No output from sandbox subprocess"@)
            } else {
                Ok(trim_of(line@))
            },
        ),
{
    if line.unicode_len() == 0 {
        Err(CodeInterpreterError::new("No output from sandbox subprocess"))
    } else {
        Ok(trim(line))
    }
}

/// The value in the answer to a plain request, or why the request failed.
pub open spec fn response_of(j: JsonSpec) -> Result<JsonSpec, Seq<char>> {
    match member_of(j, "error"@) {
        Some(e) => Err(
            match member_text(e, "message"@) {
                Some(t) => t,
                None => "Unknown error"@,
            },
        ),
        None => Ok(j),
    }
}

/// The value in the line that answers a plain request, or why the request failed.
pub open spec fn response_in(line: Seq<char>) -> Result<JsonSpec, Seq<char>> {
    match parsed_json(line) {
        Err(e) => Err("Parse error: "@ + e),
        Ok(j) => response_of(j),
    }
}

/// A result gives a value, or fails with a text.
pub open spec fn gives_value(
    r: Result<Json, CodeInterpreterError>,
    want: Result<JsonSpec, Seq<char>>,
) -> bool {
    match want {
        Ok(j) => r matches Ok(x) && x@ == j,
        Err(m) => r matches Err(e) && e.message@ == m,
    }
}

/// Takes the answer to a plain request.
pub fn check_response(resp: Json) -> (r: Result<Json, CodeInterpreterError>)
    ensures
        gives_value(r, response_of(resp@)),
{
    if let Some(error) = resp.get("error") {
        let m = match error.get_str("message") {
            Some(t) => t,
            None => "Unknown error",
        };
        return Err(CodeInterpreterError::new(m));
    }
    Ok(resp)
}

/// Takes the line that answers a plain request.
pub fn parse_response(line: &str) -> (r: Result<Json, CodeInterpreterError>)
    ensures
        gives_value(r, response_in(line@)),
{
    match Json::parse(line) {
        Ok(j) => check_response(j),
        Err(e) => {
            let mut m = "Parse error: ".to_string();
            m.append(e.as_str());
            Err(CodeInterpreterError { message: m })
        },
    }
}

/// A tool that the sandbox asks for.
#[derive(Debug)]
pub struct ToolRequest {
    pub name: String,
    pub kwargs: StrMap<Json>,
    /// What the answer has to name.
    pub id: Json,
}

/// What follows from a line of the sandbox while code runs.
#[derive(Debug)]
pub enum SandboxStep {
    /// A tool is to be called and its result sent.
    CallTool(ToolRequest),
    /// The code has run.
    Done(ExecutionResult),
    /// Running the code failed.
    Fail(CodeInterpreterError),
    /// The next line is to be read.
    Wait,
}

/// What follows from a line of the sandbox.
pub enum StepSpec {
    CallTool { name: Seq<char>, kwargs: Map<Seq<char>, JsonSpec>, id: JsonSpec },
    Output(Option<Seq<char>>),
    Final(JsonSpec),
    Fail(Seq<char>),
    Wait,
}

impl View for SandboxStep {
    type V = StepSpec;

    open spec fn view(&self) -> StepSpec {
        match *self {
            SandboxStep::CallTool(t) => StepSpec::CallTool {
                name: t.name@,
                kwargs: json_object(t.kwargs),
                id: t.id@,
            },
            SandboxStep::Done(ExecutionResult::Output(s)) => StepSpec::Output(opt_view(s)),
            SandboxStep::Done(ExecutionResult::Final(f)) => StepSpec::Final(f.output@),
            SandboxStep::Fail(e) => StepSpec::Fail(e.message@),
            SandboxStep::Wait => StepSpec::Wait,
        }
    }
}

/// The tool that a message asks for.
pub open spec fn tool_request_of(j: JsonSpec) -> StepSpec {
    let params = match member_of(j, "params"@) {
        Some(p) => p,
        None => JsonSpec::Object(empty_object()),
    };
    StepSpec::CallTool {
        name: match member_text(params, "name"@) {
            Some(n) => n,
            None => Seq::empty(),
        },
        kwargs: match member_of(params, "kwargs"@) {
            Some(JsonSpec::Object(m)) => m,
            _ => empty_object(),
        },
        id: match member_of(j, "id"@) {
            Some(i) => i,
            None => JsonSpec::Null,
        },
    }
}

/// Why the code failed.
pub open spec fn failure_of(error: JsonSpec) -> Seq<char> {
    let data = member_of(error, "data"@);
    let kind = match data {
        Some(d) => member_text(d, "type"@),
        None => None,
    };
    let args = match data {
        Some(d) => member_text(d, "args"@),
        None => None,
    };
    let text = match args {
        Some(t) => t,
        None => match member_text(error, "message"@) {
            Some(t) => t,
            None => "Unknown error"@,
        },
    };
    (match kind {
        Some(t) => t,
        None => "Unknown"@,
    }) + ": "@ + text
}

/// The message answers the request with a number.
pub open spec fn answers(j: JsonSpec, id: u64) -> bool {
    &&& member_of(j, "result"@) is Some
    &&& match member_of(j, "id"@) {
        Some(i) => nat_in(i) == Some(id as int),
        None => false,
    }
}

/// What follows from a message while the code of a request runs.
pub open spec fn step_of(j: JsonSpec, id: u64) -> StepSpec {
    if member_text(j, "method"@) == Some("tool_call"@) {
        tool_request_of(j)
    } else if answers(j, id) {
        let result = member_of(j, "result"@)->Some_0;
        match member_of(result, "final"@) {
            Some(v) => StepSpec::Final(v),
            None => StepSpec::Output(member_text(result, "output"@)),
        }
    } else {
        match member_of(j, "error"@) {
            Some(e) => StepSpec::Fail(failure_of(e)),
            None => StepSpec::Wait,
        }
    }
}

/// What follows from a line while the code of a request runs.
pub open spec fn line_step(line: Seq<char>, id: u64) -> StepSpec {
    match parsed_json(line) {
        Ok(j) => step_of(j, id),
        Err(_) => StepSpec::Fail("Invalid JSON from sandbox"@),
    }
}

fn read_tool_request(j: &Json) -> (r: ToolRequest)
    ensures
        SandboxStep::CallTool(r)@ == tool_request_of(j@),
{
    let mut name = String::new();
    proof {
        assert(name@ =~= Seq::<char>::empty());
    }
    let mut kwargs = new_object();
    if let Some(params) = j.get("params") {
        if let Some(n) = params.get_str("name") {
            name = n.to_owned();
        }
        if let Some(k) = params.get("kwargs") {
            if let Some(m) = k.as_object() {
                kwargs = copy_object(m);
            }
        }
    }
    let id = match j.get("id") {
        Some(i) => i.copy(),
        None => Json::Null,
    };
    ToolRequest { name, kwargs, id }
}

fn read_failure(error: &Json) -> (r: String)
    ensures
        r@ == failure_of(error@),
{
    let mut kind: &str = "Unknown";
    let mut text: &str = match error.get_str("message") {
        Some(t) => t,
        None => "Unknown error",
    };
    if let Some(d) = error.get("data") {
        if let Some(t) = d.get_str("type") {
            kind = t;
        }
        if let Some(t) = d.get_str("args") {
            text = t;
        }
    }
    let mut r = kind.to_owned();
    r.append(": ");
    r.append(text);
    r
}

/// What follows from a message while the code of request `id` runs.
pub fn take_message(j: &Json, id: u64) -> (r: SandboxStep)
    ensures
        r@ == step_of(j@, id),
{
    if let Some(m) = j.get_str("method") {
        if same(m, "tool_call") {
            return SandboxStep::CallTool(read_tool_request(j));
        }
    }
    if let Some(result) = j.get("result") {
        if let Some(i) = j.get("id") {
            if let Some(n) = i.as_u64() {
                if n == id {
                    if let Some(v) = result.get("final") {
                        return SandboxStep::Done(ExecutionResult::Final(FinalOutput::new(v.copy())));
                    }
                    return match result.get_str("output") {
                        Some(s) => SandboxStep::Done(ExecutionResult::Output(Some(s.to_owned()))),
                        None => SandboxStep::Done(ExecutionResult::Output(None)),
                    };
                }
            }
        }
    }
    match j.get("error") {
        Some(e) => SandboxStep::Fail(CodeInterpreterError { message: read_failure(e) }),
        None => SandboxStep::Wait,
    }
}

/// What follows from a line while the code of request `id` runs.
pub fn take_line(line: &str, id: u64) -> (r: SandboxStep)
    ensures
        r@ == line_step(line@, id),
{
    match Json::parse(line) {
        Ok(j) => take_message(&j, id),
        Err(_) => SandboxStep::Fail(CodeInterpreterError::new("Invalid JSON from sandbox")),
    }
}

// ---------------------------------------------------------------------------
// What the sandbox is told
// ---------------------------------------------------------------------------

/// What a tool gave, as the sandbox is told.
pub open spec fn tool_value(j: JsonSpec) -> JsonSpec {
    let structured = j is Object || j is Array;
    JsonSpec::Object(
        empty_object().insert(
            "value"@,
            JsonSpec::Text(
                if structured {
                    printed_json(j)
                } else {
                    match text_in(j) {
                        Some(t) => t,
                        None => Seq::empty(),
                    }
                },
            ),
        ).insert(
            "type"@,
            JsonSpec::Text(
                if structured {
                    "json"@
                } else {
                    "string"@
                },
            ),
        ),
    )
}

/// The answer to the call of a tool.
pub fn tool_answer(id: &Json, result: &Json) -> (r: String)
    ensures
        r@ == line_of(answer_of(tool_value(result@), id@)),
{
    let structured = result.is_object() || result.is_array();
    let mut v = new_object();
    if structured {
        let t = result.to_text();
        put_text(&mut v, "value", t.as_str());
        put_text(&mut v, "type", "json");
    } else {
        match result.as_str() {
            Some(t) => {
                put_text(&mut v, "value", t);
            },
            None => {
                proof {
                    reveal_strlit("");
                    assert(""@ =~= Seq::<char>::empty());
                }
                put_text(&mut v, "value", "");
            },
        }
        put_text(&mut v, "type", "string");
    }
    let mut m = new_object();
    put_text(&mut m, "jsonrpc", "2.0");
    put(&mut m, "result", Json::Object(v));
    put(&mut m, "id", id.copy());
    line_for(&Json::Object(m))
}

/// What the sandbox is told where a tool fails.
pub fn tool_failure(id: &Json, message: &str) -> (r: String)
    ensures
        r@ == line_of(refusal_of(message@, id@)),
{
    let mut e = new_object();
    put(&mut e, "code", Json::Signed(-32099));
    put_text(&mut e, "message", message);
    let mut m = new_object();
    put_text(&mut m, "jsonrpc", "2.0");
    put(&mut m, "error", Json::Object(e));
    put(&mut m, "id", id.copy());
    line_for(&Json::Object(m))
}

/// What the sandbox is told where there is no tool of the name.
pub fn unknown_tool(id: &Json, name: &str) -> (r: String)
    ensures
        r@ == line_of(refusal_of("Unknown tool: "@ + name@, id@)),
{
    let mut m = "Unknown tool: ".to_string();
    m.append(name);
    tool_failure(id, m.as_str())
}

/// The request that ends the sandbox.
pub fn shutdown_request() -> (r: String)
    ensures
        r@ == line_of(
            request_of("shutdown"@, JsonSpec::Object(empty_object()), JsonSpec::Null),
        ),
{
    request_line("shutdown", Json::Object(new_object()), Json::Null)
}

/// The arguments that start the sandbox.
pub fn start_arguments(runner_dir: &str, runner_path: &str) -> (r: Vec<String>)
    ensures
        texts(r@) == seq![
            "run"@,
            "--allow-read="@ + runner_dir@,
            "--node-modules-dir=auto"@,
            runner_path@,
        ],
{
    let mut args: Vec<String> = Vec::new();
    proof {
        assert(texts(args@) =~= Seq::<Seq<char>>::empty());
    }
    push_text(&mut args, "run".to_string());
    let mut allow = "--allow-read=".to_string();
    allow.append(runner_dir);
    push_text(&mut args, allow);
    push_text(&mut args, "--node-modules-dir=auto".to_string());
    push_text(&mut args, runner_path.to_owned());
    proof {
        assert(texts(args@) =~= seq![
            "run"@,
            "--allow-read="@ + runner_dir@,
            "--node-modules-dir=auto"@,
            runner_path@,
        ]);
    }
    args
}

/// The tools as the sandbox is told of them.
pub open spec fn tools_message(names: Seq<Seq<char>>) -> JsonSpec {
    single(
        "tools"@,
        JsonSpec::Array(names.map_values(|n: Seq<char>| single("name"@, JsonSpec::Text(n)))),
    )
}

/// The code as the sandbox is told of it.
pub open spec fn code_message(
    code: Seq<char>,
    variables: Option<Map<Seq<char>, JsonSpec>>,
) -> JsonSpec {
    let m = empty_object().insert("code"@, JsonSpec::Text(code));
    match variables {
        Some(v) => JsonSpec::Object(m.insert("variables"@, JsonSpec::Object(v))),
        None => JsonSpec::Object(m),
    }
}

/// The variables that go to the sandbox: none where there are none to send.
pub open spec fn sent_variables(v: Option<&StrMap<Json>>) -> Option<Map<Seq<char>, JsonSpec>> {
    match v {
        Some(m) => if m.keys().len() == 0 {
            None
        } else {
            Some(json_object(*m))
        },
        None => None,
    }
}

impl<T> SandboxedInterpreter<T> {
    /// A sandbox that has not been started.
    pub fn new(options: SandboxedInterpreterOptions<T>) -> (r: Self)
        ensures
            r.deno_command == options.deno_command,
            r.tools == options.tools,
            r.request_id == 0,
            !r.registered,
    {
        SandboxedInterpreter {
            deno_command: options.deno_command,
            tools: options.tools,
            request_id: 0,
            registered: false,
        }
    }

    /// A sandbox without tools.
    pub fn default_new() -> (r: Self)
        ensures
            r.deno_command@ == "deno"@,
            r.tools.keys() == Seq::<Seq<char>>::empty(),
            r.request_id == 0,
            !r.registered,
    {
        Self::new(SandboxedInterpreterOptions::default_options())
    }

    /// A sandbox that was started or ended knows no tools.
    pub fn forget_tools(&mut self)
        ensures
            *final(self) == (SandboxedInterpreter { registered: false, ..*old(self) }),
    {
        self.registered = false;
    }

    /// The sandbox has been told of the tools.
    pub fn mark_registered(&mut self)
        ensures
            *final(self) == (SandboxedInterpreter { registered: true, ..*old(self) }),
    {
        self.registered = true;
    }

    /// The next request.
    fn send_request(&mut self, method: &str, params: Json) -> (r: String)
        requires
            old(self).request_id < u64::MAX,
        ensures
            *final(self) == (SandboxedInterpreter {
                request_id: (old(self).request_id + 1) as u64,
                ..*old(self)
            }),
            r@ == line_of(
                request_of(method@, params@, JsonSpec::Int(old(self).request_id + 1)),
            ),
    {
        self.request_id = self.request_id + 1;
        request_line(method, params, Json::Unsigned(self.request_id))
    }

    /// The request that asks a sandbox that was just started whether it is there.
    pub fn ping_request(&mut self) -> (r: String)
        requires
            old(self).request_id < u64::MAX,
        ensures
            *final(self) == (SandboxedInterpreter {
                request_id: (old(self).request_id + 1) as u64,
                ..*old(self)
            }),
            r@ == line_of(
                request_of(
                    "ping"@,
                    JsonSpec::Object(empty_object()),
                    JsonSpec::Int(old(self).request_id + 1),
                ),
            ),
    {
        self.send_request("ping", Json::Object(new_object()))
    }

    /// The request that tells the sandbox of the tools, where it has to be told.
    pub fn register_request(&mut self) -> (r: Option<String>)
        requires
            old(self).request_id < u64::MAX,
        ensures
            if old(self).registered || old(self).tools.keys().len() == 0 {
                r is None && *final(self) == (SandboxedInterpreter {
                    registered: true,
                    ..*old(self)
                })
            } else {
                &&& opt_view(r) == Some(
                    line_of(
                        request_of(
                            "register"@,
                            tools_message(old(self).tools.keys()),
                            JsonSpec::Int(old(self).request_id + 1),
                        ),
                    ),
                )
                &&& *final(self) == (SandboxedInterpreter {
                    request_id: (old(self).request_id + 1) as u64,
                    ..*old(self)
                })
            },
    {
        if self.registered {
            return None;
        }
        let n: usize = self.tools.len();
        if n == 0 {
            self.registered = true;
            return None;
        }
        let ghost names = self.tools.keys();
        let ghost want = names.map_values(|n: Seq<char>| single("name"@, JsonSpec::Text(n)));
        let mut list: Vec<Json> = Vec::new();
        let mut i: usize = 0;
        proof {
            assert(json_list(list@) =~= want.take(0));
        }
        while i < n
            invariant
                i <= n,
                n == names.len(),
                names == self.tools.keys(),
                *self == *old(self),
                want == names.map_values(|n: Seq<char>| single("name"@, JsonSpec::Text(n))),
                json_list(list@) == want.take(i as int),
            decreases n - i,
        {
            let mut m = new_object();
            put_text(&mut m, "name", self.tools.key_at(i).as_str());
            push_json(&mut list, Json::Object(m));
            proof {
                assert(want.take(i + 1) =~= want.take(i as int).push(want[i as int]));
            }
            i += 1;
        }
        proof {
            assert(want.take(n as int) =~= want);
        }
        let mut m = new_object();
        put(&mut m, "tools", Json::Array(list));
        Some(self.send_request("register", Json::Object(m)))
    }

    /// The request that runs code, and its number.
    pub fn execute_request(&mut self, code: &str, variables: Option<&StrMap<Json>>) -> (r: (
        u64,
        String,
    ))
        requires
            old(self).request_id < u64::MAX,
        ensures
            *final(self) == (SandboxedInterpreter {
                request_id: (old(self).request_id + 1) as u64,
                ..*old(self)
            }),
            r.0 == old(self).request_id + 1,
            r.1@ == line_of(
                request_of(
                    "execute"@,
                    code_message(code@, sent_variables(variables)),
                    JsonSpec::Int(r.0 as int),
                ),
            ),
    {
        let mut m = new_object();
        put_text(&mut m, "code", code);
        if let Some(v) = variables {
            if v.len() > 0 {
                put(&mut m, "variables", Json::Object(copy_object(v)));
            }
        }
        let line = self.send_request("execute", Json::Object(m));
        (self.request_id, line)
    }
}

// ---------------------------------------------------------------------------
// Laws
// ---------------------------------------------------------------------------

/// What a sandbox answers to another request changes nothing.
pub proof fn law_other_answers_are_passed_over(j: JsonSpec, id: u64)
    requires
        member_text(j, "method"@) != Some("tool_call"@),
        !answers(j, id),
        member_of(j, "error"@) is None,
    ensures
        step_of(j, id) is Wait,
{
}

/// What a request was answered with is what comes of it: the final output where the
/// code handed one in, and else what it printed.
pub proof fn law_answer_is_taken(result: JsonSpec, id: u64)
    ensures
        step_of(answer_of(result, JsonSpec::Int(id as int)), id) == match member_of(
            result,
            "final"@,
        ) {
            Some(v) => StepSpec::Final(v),
            None => StepSpec::Output(member_text(result, "output"@)),
        },
{
    let j = answer_of(result, JsonSpec::Int(id as int));
    reveal_strlit("jsonrpc");
    reveal_strlit("result");
    reveal_strlit("id");
    reveal_strlit("method");
    assert("result"@.len() == 6 && "id"@.len() == 2 && "jsonrpc"@.len() == 7 && "method"@.len()
        == 6);
    assert("result"@[0] == 'r' && "method"@[0] == 'm');
    assert(member_of(j, "method"@) is None);
    assert(member_of(j, "id"@) == Some(JsonSpec::Int(id as int)));
    assert(member_of(j, "result"@) == Some(result));
}

/// A call of a tool that the sandbox asks for is taken as it was asked.
pub proof fn law_tool_call_is_taken(
    name: Seq<char>,
    kwargs: Map<Seq<char>, JsonSpec>,
    call: JsonSpec,
    id: u64,
)
    ensures
        step_of(
            request_of(
                "tool_call"@,
                JsonSpec::Object(
                    empty_object().insert("name"@, JsonSpec::Text(name)).insert(
                        "kwargs"@,
                        JsonSpec::Object(kwargs),
                    ),
                ),
                call,
            ),
            id,
        ) == (StepSpec::CallTool { name, kwargs, id: call }),
{
    let params = JsonSpec::Object(
        empty_object().insert("name"@, JsonSpec::Text(name)).insert(
            "kwargs"@,
            JsonSpec::Object(kwargs),
        ),
    );
    let j = request_of("tool_call"@, params, call);
    reveal_strlit("jsonrpc");
    reveal_strlit("params");
    reveal_strlit("id");
    reveal_strlit("method");
    reveal_strlit("name");
    reveal_strlit("kwargs");
    assert("params"@.len() == 6 && "id"@.len() == 2 && "jsonrpc"@.len() == 7 && "method"@.len()
        == 6);
    assert("params"@[0] == 'p' && "method"@[0] == 'm');
    assert("name"@.len() == 4 && "kwargs"@.len() == 6);
    assert(member_of(j, "method"@) == Some(JsonSpec::Text("tool_call"@)));
    assert(member_of(j, "params"@) == Some(params));
    assert(member_of(j, "id"@) == Some(call));
    assert(member_of(params, "name"@) == Some(JsonSpec::Text(name)));
    assert(member_of(params, "kwargs"@) == Some(JsonSpec::Object(kwargs)));
}

} // verus!
