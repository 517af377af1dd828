//! An interpreter that answers from a script.

use crate::interpreter::{CodeInterpreterError, ExecutionResult, FinalOutput};
use crate::json::{Json, JsonSpec};
use crate::signature::opt_view;
use vstd::prelude::*;

verus! {

/// The kind of a scripted error.
#[derive(Debug, Clone, Copy, PartialEq, Eq, Structural)]
pub enum MockErrorType {
    RuntimeError,
    SyntaxError,
    CodeInterpreterError,
}

impl Default for MockErrorType {
    /// A runtime error.
    fn default() -> (r: Self)
        ensures
            r == MockErrorType::RuntimeError,
    {
        MockErrorType::RuntimeError
    }
}

/// An answer in a script.
#[derive(Debug)]
pub struct MockResponse {
    /// What is printed.
    pub output: Option<String>,
    /// What is handed in as the final output.
    pub final_output: Option<Json>,
    /// The error that running the code gives.
    pub error: Option<String>,
    pub error_type: MockErrorType,
}

/// What an answer says.
pub struct MockSpec {
    pub output: Option<Seq<char>>,
    pub final_output: Option<JsonSpec>,
    pub error: Option<Seq<char>>,
    pub error_type: MockErrorType,
}

impl View for MockResponse {
    type V = MockSpec;

    open spec fn view(&self) -> MockSpec {
        MockSpec {
            output: opt_view(self.output),
            final_output: match self.final_output {
                Some(j) => Some(j@),
                None => None,
            },
            error: opt_view(self.error),
            error_type: self.error_type,
        }
    }
}

impl MockResponse {
    /// Something is printed.
    pub fn output(s: &str) -> (r: Self)
        ensures
            r@ == (MockSpec {
                output: Some(s@),
                final_output: None,
                error: None,
                error_type: MockErrorType::RuntimeError,
            }),
    {
        MockResponse {
            output: Some(s.to_owned()),
            final_output: None,
            error: None,
            error_type: MockErrorType::RuntimeError,
        }
    }

    /// A final output is handed in.
    pub fn final_output(value: Json) -> (r: Self)
        ensures
            r@ == (MockSpec {
                output: None,
                final_output: Some(value@),
                error: None,
                error_type: MockErrorType::RuntimeError,
            }),
    {
        MockResponse {
            output: None,
            final_output: Some(value),
            error: None,
            error_type: MockErrorType::RuntimeError,
        }
    }

    /// A runtime error.
    pub fn error(msg: &str) -> (r: Self)
        ensures
            r@ == (MockSpec {
                output: None,
                final_output: None,
                error: Some(msg@),
                error_type: MockErrorType::RuntimeError,
            }),
    {
        MockResponse::error_with_type(msg, MockErrorType::RuntimeError)
    }

    /// An error of a kind.
    pub fn error_with_type(msg: &str, error_type: MockErrorType) -> (r: Self)
        ensures
            r@ == (MockSpec {
                output: None,
                final_output: None,
                error: Some(msg@),
                error_type,
            }),
    {
        MockResponse {
            output: None,
            final_output: None,
            error: Some(msg.to_owned()),
            error_type,
        }
    }
}

/// An interpreter that answers from a script.
#[derive(Debug)]
pub struct MockInterpreter {
    pub responses: Vec<MockResponse>,
    pub call_index: usize,
    pub total_calls: usize,
    pub started: bool,
}

/// The message of a scripted error.
pub open spec fn mock_message(msg: Seq<char>, t: MockErrorType) -> Seq<char> {
    match t {
        MockErrorType::SyntaxError => "SyntaxError: "@ + msg,
        MockErrorType::CodeInterpreterError => msg,
        MockErrorType::RuntimeError => "RuntimeError: "@ + msg,
    }
}

/// Running code gives what an answer says.
pub open spec fn answers(
    r: std::result::Result<ExecutionResult, CodeInterpreterError>,
    a: MockSpec,
) -> bool {
    match a.error {
        Some(msg) => r matches Err(e) && e.message@ == mock_message(msg, a.error_type),
        None => match a.final_output {
            Some(j) => r matches Ok(ExecutionResult::Final(f)) && f.output@ == j,
            None => r matches Ok(ExecutionResult::Output(o)) && opt_view(o) == a.output,
        },
    }
}

impl MockInterpreter {
    /// An interpreter with a script.
    pub fn new(responses: Vec<MockResponse>) -> (r: Self)
        ensures
            r == (MockInterpreter { responses, call_index: 0, total_calls: 0, started: false }),
    {
        MockInterpreter { responses, call_index: 0, total_calls: 0, started: false }
    }

    /// How many times code was run so far, over all sessions.
    pub fn call_count(&self) -> (r: usize)
        ensures
            r == self.total_calls,
    {
        self.total_calls
    }

    /// Begins the script again.
    pub fn reset(&mut self)
        ensures
            *final(self) == (MockInterpreter { call_index: 0, ..*old(self) }),
    {
        self.call_index = 0;
    }

    /// Begins a session.
    pub fn start(&mut self) -> (r: std::result::Result<(), CodeInterpreterError>)
        ensures
            r is Ok,
            *final(self) == (MockInterpreter { started: true, ..*old(self) }),
    {
        self.started = true;
        Ok(())
    }

    /// Gives the next answer of the script, or no output where it has ended.
    pub fn execute(&mut self) -> (r: std::result::Result<ExecutionResult, CodeInterpreterError>)
        requires
            old(self).total_calls < usize::MAX,
        ensures
            if old(self).call_index < old(self).responses@.len() {
                &&& answers(r, old(self).responses@[old(self).call_index as int]@)
                &&& *final(self) == (MockInterpreter {
                    started: true,
                    call_index: (old(self).call_index + 1) as usize,
                    total_calls: (old(self).total_calls + 1) as usize,
                    ..*old(self)
                })
            } else {
                &&& r matches Ok(ExecutionResult::Output(None))
                &&& *final(self) == (MockInterpreter {
                    started: true,
                    total_calls: (old(self).total_calls + 1) as usize,
                    ..*old(self)
                })
            },
    {
        if !self.started {
            self.started = true;
        }
        self.total_calls = self.total_calls + 1;
        let n: usize = self.responses.len();
        let i: usize = self.call_index;
        if i >= n {
            return Ok(ExecutionResult::Output(None));
        }
        self.call_index = i + 1;
        let response = &self.responses[i];
        if let Some(msg) = &response.error {
            let text = match response.error_type {
                MockErrorType::SyntaxError => {
                    let mut t = "SyntaxError: ".to_string();
                    t.append(msg.as_str());
                    t
                },
                MockErrorType::CodeInterpreterError => msg.clone(),
                MockErrorType::RuntimeError => {
                    let mut t = "RuntimeError: ".to_string();
                    t.append(msg.as_str());
                    t
                },
            };
            return Err(CodeInterpreterError { message: text });
        }
        if let Some(j) = &response.final_output {
            return Ok(ExecutionResult::Final(FinalOutput::new(j.copy())));
        }
        let output = match &response.output {
            Some(t) => Some(t.clone()),
            None => None,
        };
        Ok(ExecutionResult::Output(output))
    }

    /// Ends the session. The script begins again with the next one.
    pub fn shutdown(&mut self) -> (r: std::result::Result<(), CodeInterpreterError>)
        ensures
            r is Ok,
            *final(self) == (MockInterpreter {
                started: false,
                call_index: 0,
                ..*old(self)
            }),
    {
        self.started = false;
        self.call_index = 0;
        Ok(())
    }
}

} // verus!
