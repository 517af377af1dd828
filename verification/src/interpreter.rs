//! What running code gives.

use crate::error::DspyError;
use crate::json::{printed_json, Json};
use vstd::prelude::*;

verus! {

/// Running code failed.
#[derive(Debug)]
pub struct CodeInterpreterError {
    pub message: String,
}

impl CodeInterpreterError {
    /// A failure with a message.
    pub fn new(message: &str) -> (r: Self)
        ensures
            r.message@ == message@,
    {
        CodeInterpreterError { message: message.to_owned() }
    }

    /// The message.
    pub fn to_text(&self) -> (r: String)
        ensures
            r@ == self.message@,
    {
        self.message.clone()
    }

    /// The failure as an error of the library.
    pub fn into_dspy_error(self) -> (r: DspyError)
        ensures
            r == DspyError::Other(self.message),
    {
        DspyError::Other(self.message)
    }
}

impl Clone for CodeInterpreterError {
    fn clone(&self) -> (r: Self)
        ensures
            r.message@ == self.message@,
    {
        CodeInterpreterError { message: self.message.clone() }
    }
}

/// What code handed in as its final output.
#[derive(Debug)]
pub struct FinalOutput {
    pub output: Json,
}

impl FinalOutput {
    /// A final output.
    pub fn new(output: Json) -> (r: Self)
        ensures
            r.output == output,
    {
        FinalOutput { output }
    }

    /// The text that stands for the final output.
    pub fn to_text(&self) -> (r: String)
        ensures
            r@ == "FinalOutput("@ + printed_json(self.output@) + ")"@,
    {
        let mut r = "FinalOutput(".to_string();
        r.append(self.output.to_text().as_str());
        r.append(")");
        r
    }
}

/// What running code gave.
#[derive(Debug)]
pub enum ExecutionResult {
    /// What was printed, if anything.
    Output(Option<String>),
    /// The code handed in its final output.
    Final(FinalOutput),
}

/// A field of the final output.
#[derive(Debug)]
pub struct OutputFieldDef {
    pub name: String,
}

impl Clone for OutputFieldDef {
    fn clone(&self) -> (r: Self)
        ensures
            r.name@ == self.name@,
    {
        OutputFieldDef { name: self.name.clone() }
    }
}

} // verus!
