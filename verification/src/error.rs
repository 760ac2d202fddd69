//! Errors raised by the library's own logic.
use vstd::prelude::*;

use crate::text::{append_str, append_u64, owned};

verus! {

/// Failures the library's logic can report.
///
/// Failures of outside services (HTTP, the vector store, the ONNX runtime)
/// are reported by the application, which wraps this type.
#[derive(Debug)]
pub enum RoobuError {
    /// Tokenizer encoding failed.
    Tokenizer(String),
    /// A site API returned an unexpected response or error message.
    Api(String),
    /// Tensor shape did not match the expected dimensions.
    DimensionMismatch { expected: usize, actual: usize },
    /// A required model component (vision, text, or tokenizer) was not loaded.
    ModelNotLoaded(&'static str),
    /// An embedding batch contained no valid items after filtering.
    EmptyBatch,
    /// A credential that the chosen site needs was not supplied.
    MissingCredential(String),
}

impl RoobuError {
    /// The human-readable message of the error.
    pub fn message(&self) -> (s: String)
        ensures
            self matches RoobuError::Api(m) ==> s@ == "API error: "@ + m@,
            self matches RoobuError::Tokenizer(m) ==> s@ == "tokenizer error: "@ + m@,
            self matches RoobuError::MissingCredential(m) ==> s@ == m@,
            self matches RoobuError::ModelNotLoaded(m) ==> s@ == "required model component not loaded: "@ + m@,
    {
        match self {
            RoobuError::Tokenizer(m) => {
                let mut s = owned("tokenizer error: ");
                append_str(&mut s, m.as_str());
                s
            },
            RoobuError::Api(m) => {
                let mut s = owned("API error: ");
                append_str(&mut s, m.as_str());
                s
            },
            RoobuError::DimensionMismatch { expected, actual } => {
                let mut s = owned("dimension mismatch: expected ");
                append_u64(&mut s, *expected as u64);
                append_str(&mut s, ", got ");
                append_u64(&mut s, *actual as u64);
                s
            },
            RoobuError::ModelNotLoaded(m) => {
                let mut s = owned("required model component not loaded: ");
                append_str(&mut s, m);
                s
            },
            RoobuError::EmptyBatch => owned("empty batch — all images failed validation"),
            RoobuError::MissingCredential(m) => owned(m.as_str()),
        }
    }
}

} // verus!
