//! Local input-token estimation through the fixed `cl100k_base`
//! tokenizer.

use vstd::prelude::*;

verus! {

/// The number of tokens the fixed `cl100k_base` encoding assigns to a
/// text. The encoding is versioned and embedded in the tokenizer crate,
/// so the count is a pure function of the characters: identical input
/// gives identical counts in every process.
pub uninterp spec fn cl100k_token_count_of(s: Seq<char>) -> nat;

/// Relies on `tiktoken_rs::cl100k_base` and
/// `CoreBPE::encode_with_special_tokens`: the token count of
/// `system + prompt` under the fixed `cl100k_base` encoding. The
/// encoder is built from tables embedded in the crate, so construction
/// does not depend on the input and always succeeds, and the byte-pair
/// merge is deterministic (minimum rank, first-index tie-break): the
/// count is a pure function of the text, and an empty text encodes to
/// no tokens. The two calls are inseparable — the encoder value exists
/// only to be asked for the count.
#[verifier::external_body]
fn cl100k_count_concat(system: &str, prompt: &str) -> (r: usize)
    ensures
        r as nat == cl100k_token_count_of(system@ + prompt@),
        system@.len() + prompt@.len() == 0 ==> r == 0,
{
    let joined = format!("{}{}", system, prompt);
    let bpe = tiktoken_rs::cl100k_base().expect("the embedded cl100k tables always load");
    bpe.encode_with_special_tokens(&joined).len()
}

/// The locally estimated input-token count of one completion call: the
/// token count of the system instruction and user prompt, concatenated.
/// The estimate only feeds cost accounting, never request validation,
/// and is deterministic so tests can assert exact ledger totals.
pub fn estimate_input_tokens(system: &str, prompt: &str) -> (r: usize)
    ensures
        r as nat == cl100k_token_count_of(system@ + prompt@),
{
    cl100k_count_concat(system, prompt)
}

} // verus!
