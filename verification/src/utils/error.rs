//! The crate-wide error type.

use vstd::prelude::*;

verus! {

/// One error value per failed operation. Failures that arise as foreign
/// error values (I/O, HTTP, PDF extraction) carry their rendered message
/// as a plain string.
#[derive(Debug, Clone)]
pub enum AgentError {
    /// An operating-system level I/O failure.
    Io(String),
    /// A failure while preparing a test fixture.
    Fixture(String),
    /// A failed file operation, with the path it concerned.
    FileOp { path: String, message: String },
    /// A failure reported by, or while talking to, a remote API.
    Api(String),
    /// An invalid or missing configuration value.
    Config(String),
    /// A model-level failure.
    Model(String),
    /// A failure while processing a PDF document.
    PdfProcessing(String),
    /// Input that the caller handed in and that cannot be processed.
    InvalidInput(String),
    /// Any other failure, rendered as a message.
    Other(String),
}

pub type AgentResult<T> = Result<T, AgentError>;

} // verus!
