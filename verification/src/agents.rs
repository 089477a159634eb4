//! Agent-level configuration and the pure text analysis the agents run
//! on paper content.

pub mod paper;
pub mod research;

use vstd::prelude::*;

verus! {

/// Common configuration for all agents. The sampling temperature is
/// carried in thousandths (`700` stands for `0.7`), keeping the
/// configuration in exact integer arithmetic; the transport layer
/// converts it to the provider's wire format.
#[derive(Debug, Clone)]
pub struct AgentConfig {
    pub model: String,
    pub temperature_milli: u32,
    pub max_tokens: usize,
    pub api_key: String,
}

} // verus!
