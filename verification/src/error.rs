//! What can go wrong in a language model program.

use vstd::prelude::*;

verus! {

/// An error, with the text that says what happened.
#[derive(Debug)]
pub enum DspyError {
    MissingField(String),
    InvalidSignature(String),
    LMError(String),
    ParseError(String),
    SerializationError(String),
    HttpError(String),
    EvaluationError(String),
    OptimizationError(String),
    ModuleError(String),
    Other(String),
}

pub type Result<T> = std::result::Result<T, DspyError>;

impl DspyError {
    /// The message that a user sees.
    pub open spec fn message_of(self) -> Seq<char> {
        match self {
            DspyError::MissingField(s) => "Missing required input field: "@ + s@,
            DspyError::InvalidSignature(s) => "Invalid signature format: "@ + s@,
            DspyError::LMError(s) => "LM call failed: "@ + s@,
            DspyError::ParseError(s) => "Parse error: "@ + s@,
            DspyError::SerializationError(s) => "Serialization error: "@ + s@,
            DspyError::HttpError(s) => "HTTP error: "@ + s@,
            DspyError::EvaluationError(s) => "Evaluation error: "@ + s@,
            DspyError::OptimizationError(s) => "Optimization error: "@ + s@,
            DspyError::ModuleError(s) => "Module error: "@ + s@,
            DspyError::Other(s) => s@,
        }
    }

    /// The message that a user sees.
    pub fn message(&self) -> (r: String)
        ensures
            r@ == self.message_of(),
    {
        match self {
            DspyError::MissingField(s) => prefixed("Missing required input field: ", s.as_str()),
            DspyError::InvalidSignature(s) => prefixed("Invalid signature format: ", s.as_str()),
            DspyError::LMError(s) => prefixed("LM call failed: ", s.as_str()),
            DspyError::ParseError(s) => prefixed("Parse error: ", s.as_str()),
            DspyError::SerializationError(s) => prefixed("Serialization error: ", s.as_str()),
            DspyError::HttpError(s) => prefixed("HTTP error: ", s.as_str()),
            DspyError::EvaluationError(s) => prefixed("Evaluation error: ", s.as_str()),
            DspyError::OptimizationError(s) => prefixed("Optimization error: ", s.as_str()),
            DspyError::ModuleError(s) => prefixed("Module error: ", s.as_str()),
            DspyError::Other(s) => s.clone(),
        }
    }
}

fn prefixed(prefix: &str, s: &str) -> (r: String)
    ensures
        r@ == prefix@ + s@,
{
    let mut r = prefix.to_string();
    r.append(s);
    r
}

/// A call of the model failed with a text.
pub open spec fn is_lm_error(e: DspyError, text: Seq<char>) -> bool {
    e matches DspyError::LMError(m) && m@ == text
}

/// An evaluation failed with a text.
pub open spec fn is_evaluation_error(e: DspyError, text: Seq<char>) -> bool {
    e matches DspyError::EvaluationError(m) && m@ == text
}

/// Something else failed with a text.
pub open spec fn is_other_error(e: DspyError, text: Seq<char>) -> bool {
    e matches DspyError::Other(m) && m@ == text
}

} // verus!
