//! Research-automation building blocks centred on a resilient client for
//! remote language-model completion endpoints.
//!
//! The heart of the crate is the completion call state machine in
//! [`llm::call`]: it drives a bounded retry loop with exponential backoff
//! ([`llm::retry`]), distinguishes transient transport failures from
//! structural response failures, and settles token usage into a shared
//! ledger exactly once per successful exchange.

pub mod agents;
pub mod interaction;
pub mod llm;
pub mod tools;
pub mod utils;
