//! Trusted lookups into a JSON response body, and the verified
//! extraction routine built on them.
//!
//! Parsing a document and resolving a pointer in it are deterministic,
//! so what sits at a pointer of a body is a pure function of the two
//! texts; the names below stand for exactly that, and every contract
//! downstream — field extraction, response classification, and the
//! completion call machine — is exact in terms of them.

use vstd::prelude::*;

verus! {

/// The string value at an RFC 6901 JSON Pointer of a document: the
/// characters of the pointed-to value when the document parses as JSON
/// and a string sits at that path, nothing otherwise. A pure function
/// of the two texts.
pub uninterp spec fn json_str_at(body: Seq<char>, pointer: Seq<char>) -> Option<Seq<char>>;

/// The unsigned-integer value at an RFC 6901 JSON Pointer of a
/// document: the pointed-to value when the document parses as JSON and
/// a number representable as `u64` sits at that path, nothing
/// otherwise. A pure function of the two texts.
pub uninterp spec fn json_u64_at(body: Seq<char>, pointer: Seq<char>) -> Option<u64>;

/// The characters of an optional string.
pub open spec fn view_opt_text(r: Option<String>) -> Option<Seq<char>> {
    match r {
        Some(s) => Some(s@),
        None => None,
    }
}

/// Relies on `serde_json::from_str`, `Value::pointer` and
/// `Value::as_str`: parses the document, resolves the pointer, and
/// hands back the string there — `None` when the document does not
/// parse, the path is absent, or the value is not a string. All three
/// calls are deterministic in their inputs (the three are inseparable:
/// the parsed value exists only to be looked into), so the result is a
/// function of `(body, pointer)` alone.
#[verifier::external_body]
fn json_string_lookup(body: &str, pointer: &str) -> (r: Option<String>)
    ensures
        view_opt_text(r) == json_str_at(body@, pointer@),
{
    match serde_json::from_str::<serde_json::Value>(body) {
        Ok(v) => match v.pointer(pointer) {
            Some(x) => x.as_str().map(str::to_string),
            None => None,
        },
        Err(_) => None,
    }
}

/// Relies on `serde_json::from_str`, `Value::pointer` and
/// `Value::as_u64`: parses the document, resolves the pointer, and
/// hands back the integer there — `None` when the document does not
/// parse, the path is absent, or the value is not a number representable
/// as `u64`. Deterministic in `(body, pointer)` alone, as above.
#[verifier::external_body]
fn json_u64_lookup(body: &str, pointer: &str) -> (r: Option<u64>)
    ensures
        r == json_u64_at(body@, pointer@),
{
    match serde_json::from_str::<serde_json::Value>(body) {
        Ok(v) => match v.pointer(pointer) {
            Some(x) => x.as_u64(),
            None => None,
        },
        Err(_) => None,
    }
}

/// Reduce a response body to the two fields the client validates: the
/// string at `text_pointer` and the integer at `tokens_pointer` —
/// exactly the values those pointers name in the body, each `None` when
/// the body is not valid JSON, the path is absent, or the value there
/// has the wrong type. The completion call machine turns any `None`
/// into an immediate structural parse failure.
pub fn extract_response_fields(body: &str, text_pointer: &str, tokens_pointer: &str) -> (r: (
    Option<String>,
    Option<u64>,
))
    ensures
        view_opt_text(r.0) == json_str_at(body@, text_pointer@),
        r.1 == json_u64_at(body@, tokens_pointer@),
{
    (json_string_lookup(body, text_pointer), json_u64_lookup(body, tokens_pointer))
}

} // verus!
