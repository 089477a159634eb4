//! Shared utilities: the error taxonomy, string helpers, and the small
//! verified parts of file handling and process initialisation.

pub mod error;
pub mod file_ops;
pub mod init;
pub mod strings;

pub use error::AgentError;
pub use error::AgentResult;
