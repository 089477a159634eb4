//! The language-model client: shared data types, retry schedule, usage
//! ledger, completion call state machine and provider adapters.

pub mod call;
pub mod json;
pub mod ledger;
pub mod provider;
pub mod retry;
pub mod tokenize;

pub use call::CompletionCall;
pub use ledger::TokenCount;

use vstd::prelude::*;
use crate::agents::AgentConfig;

verus! {

/// One chat message of a completion request.
#[derive(Debug, Clone)]
pub struct Message {
    pub role: String,
    pub content: String,
}

/// Configuration of a completion client.
///
/// The sampling temperature is carried in thousandths (`700` stands for
/// a temperature of `0.7`), so that the configuration stays in exact
/// integer arithmetic end to end; the transport layer converts it to the
/// provider's wire format.
#[derive(Debug, Clone)]
pub struct LLMConfig {
    pub temperature_milli: Option<u32>,
    pub max_tokens: Option<usize>,
    pub model: String,
    pub version: String,
}

impl Default for LLMConfig {
    /// The default configuration: no explicit temperature or token
    /// budget, targeting the `o1-mini` model.
    fn default() -> (r: LLMConfig)
        ensures
            r.temperature_milli is None,
            r.max_tokens is None,
            r.model@ == "o1-mini"@,
            r.version@ == "1.5"@,
    {
        LLMConfig {
            temperature_milli: None,
            max_tokens: None,
            model: "o1-mini".to_owned(),
            version: "1.5".to_owned(),
        }
    }
}

/// A validated completion response: the response text (possibly empty,
/// but always present) and the total number of tokens the exchange used.
#[derive(Debug, Clone)]
pub struct LLMResponse {
    pub text: String,
    pub tokens_used: usize,
}

/// The client configuration derived from an agent's base configuration.
pub fn llm_config_for(config: &AgentConfig) -> (r: LLMConfig)
    ensures
        r.temperature_milli == Some(config.temperature_milli),
        r.max_tokens == Some(config.max_tokens),
        r.model@ == config.model@,
        r.version@ == "1.5"@,
{
    LLMConfig {
        temperature_milli: Some(config.temperature_milli),
        max_tokens: Some(config.max_tokens),
        model: config.model.clone(),
        version: "1.5".to_owned(),
    }
}

/// The system/user message pair every completion request is built from.
pub fn build_messages(system: &str, prompt: &str) -> (r: Vec<Message>)
    ensures
        r@.len() == 2,
        r@[0].role@ == "system"@,
        r@[0].content@ == system@,
        r@[1].role@ == "user"@,
        r@[1].content@ == prompt@,
{
    let mut messages: Vec<Message> = Vec::new();
    messages.push(Message { role: "system".to_owned(), content: system.to_owned() });
    messages.push(Message { role: "user".to_owned(), content: prompt.to_owned() });
    messages
}

} // verus!
