//! Provider adapters: the per-provider request shaping that the
//! completion client is polymorphic over — endpoint, canonical model
//! identifier, response field paths, and the authorisation header.
//!
//! Adding a provider means adding a variant here; the retry and ledger
//! logic in [`crate::llm::call`] does not change.

use vstd::prelude::*;
use vstd::string::StrSliceExecFns;
use vstd::string::StringExecFns;
use crate::llm::call::AttemptEvent;
use crate::llm::json::extract_response_fields;
use crate::llm::json::json_str_at;
use crate::llm::json::json_u64_at;
use crate::llm::json::view_opt_text;
use crate::utils::strings::ascii_space_at;
use crate::utils::strings::is_ascii_space;
use crate::utils::strings::spec_trim_end;
use crate::utils::strings::spec_trim_start;

verus! {

/// The completion providers the client can talk to.
#[derive(Debug, Clone, Copy, PartialEq, Eq, Structural)]
pub enum LLMProvider {
    DeepSeek,
    Claude,
}

impl LLMProvider {
    /// The JSON Pointer to the response text field, as a value.
    pub open spec fn spec_text_pointer(self) -> Seq<char> {
        match self {
            LLMProvider::DeepSeek => "/choices/0/message/content"@,
            LLMProvider::Claude => "/content/0/text"@,
        }
    }

    /// The JSON Pointer to the total-token usage field, as a value.
    pub open spec fn spec_tokens_pointer(self) -> Seq<char> {
        "/usage/total_tokens"@
    }

    /// The provider's canonical model identifier, used as the ledger key.
    pub fn model_name(&self) -> (r: String)
        ensures
            self is DeepSeek ==> r@ == "deepseek-chat"@,
            self is Claude ==> r@ == "anthropic-messages"@,
    {
        match self {
            LLMProvider::DeepSeek => "deepseek-chat".to_owned(),
            LLMProvider::Claude => "anthropic-messages".to_owned(),
        }
    }

    /// The completion endpoint the request is POSTed to.
    pub fn api_url(&self) -> (r: String)
        ensures
            self is DeepSeek ==> r@ == "https://api.deepseek.com/v1/chat/completions"@,
            self is Claude ==> r@ == "https://api.anthropic.com/v1/messages"@,
    {
        match self {
            LLMProvider::DeepSeek => "https://api.deepseek.com/v1/chat/completions".to_owned(),
            LLMProvider::Claude => "https://api.anthropic.com/v1/messages".to_owned(),
        }
    }

    /// The JSON Pointer to the response text field.
    pub fn text_pointer(&self) -> (r: String)
        ensures
            r@ == self.spec_text_pointer(),
    {
        match self {
            LLMProvider::DeepSeek => "/choices/0/message/content".to_owned(),
            LLMProvider::Claude => "/content/0/text".to_owned(),
        }
    }

    /// The JSON Pointer to the total-token usage field.
    pub fn tokens_pointer(&self) -> (r: String)
        ensures
            r@ == self.spec_tokens_pointer(),
    {
        "/usage/total_tokens".to_owned()
    }

    /// Map an HTTP exchange to the event the completion call machine
    /// consumes: any non-2xx status is a transient failure eligible for
    /// retry; a 2xx response is reduced to exactly the values at the
    /// provider's text and token paths in the body, whose absence the
    /// machine treats as a structural parse failure.
    pub fn classify_response(&self, status: u16, body: String) -> (ev: AttemptEvent)
        ensures
            !(200 <= status < 300) ==> ev == AttemptEvent::HttpFailed(status, body),
            200 <= status < 300 ==> (ev matches AttemptEvent::BodyReceived(t, n)
                && view_opt_text(t) == json_str_at(body@, self.spec_text_pointer())
                && n == json_u64_at(body@, self.spec_tokens_pointer())),
    {
        if status < 200 || status >= 300 {
            AttemptEvent::HttpFailed(status, body)
        } else {
            let tp = self.text_pointer();
            let kp = self.tokens_pointer();
            let (t, n) = extract_response_fields(body.as_str(), tp.as_str(), kp.as_str());
            AttemptEvent::BodyReceived(t, n)
        }
    }
}

/// The key with every leading `"Bearer "` prefix removed.
pub open spec fn spec_strip_bearer(s: Seq<char>) -> Seq<char>
    decreases s.len(),
{
    if s.len() >= 7 && s.subrange(0, 7) == "Bearer "@ {
        spec_strip_bearer(s.subrange(7, s.len() as int))
    } else {
        s
    }
}

/// The cleaned key: any pre-existing scheme prefix stripped, then
/// whitespace trimmed from both ends — so the header built from it is
/// never double-prefixed.
pub open spec fn spec_clean_key(s: Seq<char>) -> Seq<char> {
    spec_trim_end(spec_trim_start(spec_strip_bearer(s)))
}

fn bearer_prefix_at(s: &str, a: usize, n: usize) -> (r: bool)
    requires
        n == s@.len(),
        a + 7 <= n,
    ensures
        r == (s@.subrange(a as int, a as int + 7) == "Bearer "@),
{
    proof {
        reveal_strlit("Bearer ");
    }
    let r = s.get_char(a) == 'B' && s.get_char(a + 1) == 'e' && s.get_char(a + 2) == 'a'
        && s.get_char(a + 3) == 'r' && s.get_char(a + 4) == 'e' && s.get_char(a + 5) == 'r'
        && s.get_char(a + 6) == ' ';
    proof {
        let sub = s@.subrange(a as int, a as int + 7);
        if r {
            assert(sub =~= "Bearer "@);
        }
        if sub == "Bearer "@ {
            assert(s@[a as int] == sub[0]);
            assert(s@[a as int + 1] == sub[1]);
            assert(s@[a as int + 2] == sub[2]);
            assert(s@[a as int + 3] == sub[3]);
            assert(s@[a as int + 4] == sub[4]);
            assert(s@[a as int + 5] == sub[5]);
            assert(s@[a as int + 6] == sub[6]);
        }
    }
    r
}

/// Build the authorisation header for a bearer-style API key. The key is
/// first stripped of any pre-existing `"Bearer "` prefix and surrounding
/// ASCII whitespace, so the prefix is applied exactly once however the
/// key was supplied.
pub fn build_auth_header(api_key: &str) -> (r: String)
    ensures
        r@ == "Bearer "@ + spec_clean_key(api_key@),
{
    let n = api_key.unicode_len();
    proof {
        assert(api_key@.subrange(0, n as int) =~= api_key@);
    }
    let mut a: usize = 0;
    let mut stripped = false;
    while !stripped
        invariant
            a <= n,
            n == api_key@.len(),
            spec_strip_bearer(api_key@) == spec_strip_bearer(
                api_key@.subrange(a as int, n as int),
            ),
            stripped ==> spec_strip_bearer(api_key@.subrange(a as int, n as int))
                == api_key@.subrange(a as int, n as int),
        decreases n - a + (if stripped { 0int } else { 1int }),
    {
        let ghost sub = api_key@.subrange(a as int, n as int);
        if n >= 7 && a <= n - 7 && bearer_prefix_at(api_key, a, n) {
            proof {
                assert(sub.subrange(0, 7) =~= api_key@.subrange(a as int, a as int + 7));
                assert(sub.subrange(7, sub.len() as int) =~= api_key@.subrange(
                    a as int + 7,
                    n as int,
                ));
            }
            a = a + 7;
        } else {
            proof {
                if a + 7 <= n as int {
                    assert(sub.subrange(0, 7) =~= api_key@.subrange(a as int, a as int + 7));
                }
            }
            stripped = true;
        }
    }
    // the cleaned key starts as api_key[a..n]; now trim both ends
    let mut b: usize = n;
    while a < b && ascii_space_at(api_key, a)
        invariant
            a <= b,
            b == n,
            n == api_key@.len(),
            spec_trim_start(spec_strip_bearer(api_key@)) == spec_trim_start(
                api_key@.subrange(a as int, n as int),
            ),
        decreases b - a,
    {
        proof {
            let sub = api_key@.subrange(a as int, n as int);
            assert(sub[0] == api_key@[a as int]);
            assert(sub.drop_first() =~= api_key@.subrange(a as int + 1, n as int));
        }
        a = a + 1;
    }
    proof {
        let sub = api_key@.subrange(a as int, n as int);
        if a == n {
            assert(sub.len() == 0);
        }
        assert(spec_trim_start(sub) == sub);
    }
    while b > a && ascii_space_at(api_key, b - 1)
        invariant
            a <= b <= n,
            n == api_key@.len(),
            spec_trim_end(api_key@.subrange(a as int, n as int)) == spec_trim_end(
                api_key@.subrange(a as int, b as int),
            ),
        decreases b,
    {
        proof {
            let sub = api_key@.subrange(a as int, b as int);
            assert(sub[sub.len() - 1] == api_key@[b as int - 1]);
            assert(sub.drop_last() =~= api_key@.subrange(a as int, b as int - 1));
        }
        b = b - 1;
    }
    proof {
        let sub = api_key@.subrange(a as int, b as int);
        if a == b {
            assert(sub.len() == 0);
        }
        assert(spec_trim_end(sub) == sub);
        assert(spec_clean_key(api_key@) == api_key@.subrange(a as int, b as int));
    }
    let tail = api_key.substring_char(a, b);
    "Bearer ".to_owned().concat(tail)
}

} // verus!
