//! The completion call state machine.
//!
//! One [`CompletionCall`] value drives one `complete` invocation. The
//! caller issues the network attempt, then reports what came back as an
//! [`AttemptEvent`]; the machine decides — and its contract pins down —
//! what happens next: transient failures (transport errors and non-2xx
//! statuses) are retried with a backoff delay until the budget is
//! exhausted, a response body with a missing field settles the call
//! immediately as a structural parse failure (the shape will not change,
//! so retrying would waste budget), cancellation settles it immediately,
//! and a fully validated response settles the token-usage ledger exactly
//! once and returns the response.

use vstd::prelude::*;
use vstd::string::StringExecFns;
use crate::llm::LLMResponse;
use crate::utils::error::AgentError;
use crate::utils::strings::spec_dec;
use crate::utils::strings::u64_to_string;
use crate::llm::ledger::TokenCount;
use crate::llm::ledger::as_totals_map;
use crate::llm::ledger::sat_cap;
use crate::llm::ledger::spec_record;
use crate::llm::retry::RetryPolicy;

verus! {

/// A failure class that is expected to resolve itself given time; such
/// failures are retried and never cross the component boundary directly.
#[derive(Debug)]
pub enum TransientError {
    /// A connection error or timeout: no HTTP response was received.
    Transport(String),
    /// A non-2xx HTTP status, with the response body for diagnostics.
    HttpStatus(u16, String),
}

/// The response field whose absence makes a 2xx response structurally
/// invalid.
#[derive(Debug, Clone, Copy, PartialEq, Eq, Structural)]
pub enum MissingField {
    /// The response text field.
    Text,
    /// The total-token usage field.
    TokenCount,
}

/// The errors a settled completion call can surface to its caller.
/// Exactly one of these — or a response — crosses the boundary; transient
/// failures only ever appear wrapped in `RetryExhausted`.
#[derive(Debug)]
pub enum CompletionError {
    /// The retry budget is exhausted; carries the failure of the final
    /// attempt, or nothing when no attempt could be issued at all.
    RetryExhausted(Option<TransientError>),
    /// A 2xx response whose body misses an expected field: a contract
    /// break with the provider, surfaced immediately and never retried.
    Parse(MissingField),
    /// The caller cancelled the call; no further attempt is made.
    Cancelled,
}

impl CompletionError {
    /// Surface this error in the crate-wide error type, rendered the way
    /// the API layer reports failures.
    pub fn to_agent_error(self) -> (r: AgentError)
        ensures
            match self {
                CompletionError::RetryExhausted(last) => match last {
                    None => r matches AgentError::Api(m) && m@ == "Max retries exceeded"@,
                    Some(TransientError::Transport(t)) => r matches AgentError::Api(m) && m@ == t@,
                    Some(TransientError::HttpStatus(st, body)) => r matches AgentError::Api(m)
                        && m@ == "API error: "@ + spec_dec(st as nat) + " - "@ + body@,
                },
                CompletionError::Parse(MissingField::Text) => r matches AgentError::Api(m) && m@
                    == "Missing response text"@,
                CompletionError::Parse(MissingField::TokenCount) => r matches AgentError::Api(m)
                    && m@ == "Missing token count"@,
                CompletionError::Cancelled => r matches AgentError::Api(m) && m@
                    == "Request cancelled"@,
            },
    {
        match self {
            CompletionError::RetryExhausted(None) => AgentError::Api(
                "Max retries exceeded".to_owned(),
            ),
            CompletionError::RetryExhausted(Some(TransientError::Transport(m))) => AgentError::Api(
                m,
            ),
            CompletionError::RetryExhausted(Some(TransientError::HttpStatus(st, body))) => {
                let msg = "API error: ".to_owned().concat(
                    u64_to_string(st as u64).as_str(),
                ).concat(" - ").concat(body.as_str());
                AgentError::Api(msg)
            },
            CompletionError::Parse(MissingField::Text) => AgentError::Api(
                "Missing response text".to_owned(),
            ),
            CompletionError::Parse(MissingField::TokenCount) => AgentError::Api(
                "Missing token count".to_owned(),
            ),
            CompletionError::Cancelled => AgentError::Api("Request cancelled".to_owned()),
        }
    }
}

/// What one issued attempt (or the wait before it) came back with.
pub enum AttemptEvent {
    /// The request never produced an HTTP response.
    TransportFailed(String),
    /// The request produced a non-2xx status, with the response body.
    HttpFailed(u16, String),
    /// A 2xx response, reduced to the two fields the client validates:
    /// the extracted text and the reported total token count, each absent
    /// when the body did not carry it in the expected shape.
    BodyReceived(Option<String>, Option<u64>),
    /// The caller's context was cancelled while waiting.
    Cancelled,
}

/// What the caller must do after reporting an event.
pub enum Step {
    /// Suspend for this many milliseconds, then issue the next attempt.
    Sleep(u64),
    /// The call is settled; take the outcome.
    Finished,
}

/// The per-call state: the retry policy, what the ledger will be charged
/// under, and the progress of the attempt loop.
pub struct CompletionCall {
    pub policy: RetryPolicy,
    /// The canonical model identifier used as the ledger key.
    pub model: String,
    /// The locally estimated input-token count of this call's prompt.
    pub input_tokens: usize,
    /// How many attempts have completed (successfully or not).
    pub attempts_made: u64,
    /// The most recent transient failure, kept while retrying.
    pub last_error: Option<TransientError>,
    /// The settled result; `None` while the call is still in flight.
    pub outcome: Option<Result<LLMResponse, CompletionError>>,
}

/// Whether an event reports a transient (retriable) failure.
pub open spec fn is_transient_event(ev: AttemptEvent) -> bool {
    ev matches AttemptEvent::TransportFailed(_) || ev matches AttemptEvent::HttpFailed(_, _)
}

/// The transient error a failure event records.
pub open spec fn spec_transient_of(ev: AttemptEvent) -> TransientError
    recommends
        is_transient_event(ev),
{
    match ev {
        AttemptEvent::TransportFailed(m) => TransientError::Transport(m),
        AttemptEvent::HttpFailed(st, b) => TransientError::HttpStatus(st, b),
        _ => arbitrary(),
    }
}

/// The provider-reported total token count, clamped into `usize`.
pub open spec fn spec_clamped_total(total: u64) -> nat {
    sat_cap(total as nat, usize::MAX as nat)
}

/// The output-token delta charged to the ledger: the reported total
/// minus the locally estimated input tokens, clamped at zero when the
/// provider's total is smaller than the local estimate.
pub open spec fn spec_output_delta(total: u64, input: nat) -> nat {
    if spec_clamped_total(total) >= input {
        (spec_clamped_total(total) - input) as nat
    } else {
        0
    }
}

/// The state and step after a transient failure: within budget the error
/// is recorded and the backoff delay for the failed attempt is slept;
/// past the budget the call settles as `RetryExhausted`, carrying this
/// final failure.
pub open spec fn spec_fail(c: CompletionCall, e: TransientError) -> (CompletionCall, Step) {
    let k = c.attempts_made + 1;
    if k <= c.policy.max_retries {
        (
            CompletionCall { attempts_made: k as u64, last_error: Some(e), ..c },
            Step::Sleep(c.policy.spec_delay_value(k as nat)),
        )
    } else {
        (
            CompletionCall {
                attempts_made: k as u64,
                outcome: Some(Err(CompletionError::RetryExhausted(Some(e)))),
                ..c
            },
            Step::Finished,
        )
    }
}

/// One transition of the machine: the state and step after reporting
/// `ev`. A settled call no longer moves.
pub open spec fn spec_transition(c: CompletionCall, ev: AttemptEvent) -> (CompletionCall, Step) {
    if !c.in_flight() {
        (c, Step::Finished)
    } else {
        match ev {
            AttemptEvent::TransportFailed(m) => spec_fail(c, TransientError::Transport(m)),
            AttemptEvent::HttpFailed(st, b) => spec_fail(c, TransientError::HttpStatus(st, b)),
            AttemptEvent::Cancelled => (
                CompletionCall { outcome: Some(Err(CompletionError::Cancelled)), ..c },
                Step::Finished,
            ),
            AttemptEvent::BodyReceived(t_opt, n_opt) => {
                if t_opt is Some && n_opt is Some {
                    (
                        CompletionCall {
                            attempts_made: (c.attempts_made + 1) as u64,
                            outcome: Some(
                                Ok(
                                    LLMResponse {
                                        text: t_opt.unwrap(),
                                        tokens_used: spec_clamped_total(n_opt.unwrap()) as usize,
                                    },
                                ),
                            ),
                            ..c
                        },
                        Step::Finished,
                    )
                } else {
                    let field = if t_opt is None {
                        MissingField::Text
                    } else {
                        MissingField::TokenCount
                    };
                    (
                        CompletionCall {
                            attempts_made: (c.attempts_made + 1) as u64,
                            outcome: Some(Err(CompletionError::Parse(field))),
                            ..c
                        },
                        Step::Finished,
                    )
                }
            },
        }
    }
}

impl CompletionCall {
    /// Whether the call is still unsettled.
    pub open spec fn in_flight(self) -> bool {
        self.outcome is None
    }

    /// The machine's invariant: while in flight, no more failures have
    /// been absorbed than the retry budget admits. (The bound on the
    /// budget itself only keeps the attempt counter inside `u64`.)
    pub open spec fn wf(self) -> bool {
        &&& self.policy.max_retries < u64::MAX
        &&& (self.in_flight() ==> self.attempts_made <= self.policy.max_retries)
    }

    /// A fresh call: no attempt issued yet, nothing settled.
    pub fn new(policy: RetryPolicy, model: String, input_tokens: usize) -> (r: CompletionCall)
        requires
            policy.max_retries < u64::MAX,
        ensures
            r.policy == policy,
            r.model == model,
            r.input_tokens == input_tokens,
            r.attempts_made == 0,
            r.last_error is None,
            r.outcome is None,
            r.wf(),
    {
        CompletionCall {
            policy,
            model,
            input_tokens,
            attempts_made: 0,
            last_error: None,
            outcome: None,
        }
    }

    fn fail_step(&mut self, e: TransientError) -> (step: Step)
        requires
            old(self).wf(),
            old(self).in_flight(),
        ensures
            *final(self) == spec_fail(*old(self), e).0,
            step == spec_fail(*old(self), e).1,
    {
        let k = self.attempts_made + 1;
        self.attempts_made = k;
        if k <= self.policy.max_retries {
            let d = self.policy.next_delay(k).unwrap();
            self.last_error = Some(e);
            Step::Sleep(d)
        } else {
            self.outcome = Some(Err(CompletionError::RetryExhausted(Some(e))));
            Step::Finished
        }
    }

    /// Report the outcome of the pending attempt (or of the wait before
    /// it) and learn what to do next. The state and the returned step
    /// follow [`spec_transition`] exactly; the ledger is charged exactly
    /// when the event is a fully validated response — both token deltas
    /// settled as one unit, under this call's model identifier — and is
    /// untouched by every other event.
    pub fn report(&mut self, ev: AttemptEvent, ledger: &mut TokenCount) -> (step: Step)
        requires
            old(self).wf(),
            old(self).in_flight(),
            old(ledger).wf(),
        ensures
            final(self).wf(),
            final(ledger).wf(),
            *final(self) == spec_transition(*old(self), ev).0,
            step == spec_transition(*old(self), ev).1,
            (ev matches AttemptEvent::BodyReceived(Some(t), Some(n)) ==> as_totals_map(
                final(ledger)@,
            ) == spec_record(
                as_totals_map(old(ledger)@),
                old(self).model@,
                old(self).input_tokens as nat,
                spec_output_delta(n, old(self).input_tokens as nat),
            )),
            !(ev matches AttemptEvent::BodyReceived(Some(_), Some(_))) ==> *final(ledger) == *old(
                ledger,
            ),
    {
        match ev {
            AttemptEvent::TransportFailed(m) => self.fail_step(TransientError::Transport(m)),
            AttemptEvent::HttpFailed(st, b) => self.fail_step(TransientError::HttpStatus(st, b)),
            AttemptEvent::Cancelled => {
                self.outcome = Some(Err(CompletionError::Cancelled));
                Step::Finished
            },
            AttemptEvent::BodyReceived(t_opt, n_opt) => {
                match (t_opt, n_opt) {
                    (Some(text), Some(total)) => {
                        self.attempts_made = self.attempts_made + 1;
                        let clamped: usize = if total <= usize::MAX as u64 {
                            total as usize
                        } else {
                            usize::MAX
                        };
                        let out_delta: usize = if clamped >= self.input_tokens {
                            clamped - self.input_tokens
                        } else {
                            0
                        };
                        ledger.add_tokens(self.model.as_str(), self.input_tokens, out_delta);
                        self.outcome = Some(Ok(LLMResponse { text, tokens_used: clamped }));
                        Step::Finished
                    },
                    (t2, n2) => {
                        let field = if t2.is_none() {
                            MissingField::Text
                        } else {
                            MissingField::TokenCount
                        };
                        self.attempts_made = self.attempts_made + 1;
                        self.outcome = Some(Err(CompletionError::Parse(field)));
                        Step::Finished
                    },
                }
            },
        }
    }

    /// Take the settled outcome: the validated response, or exactly one
    /// typed error — never both, never a partial response.
    pub fn into_outcome(self) -> (r: Result<LLMResponse, CompletionError>)
        requires
            !self.in_flight(),
        ensures
            Some(r) == self.outcome,
    {
        self.outcome.unwrap()
    }
}

/// The state after a whole sequence of events has been reported.
pub open spec fn spec_run(c: CompletionCall, evs: Seq<AttemptEvent>) -> CompletionCall
    decreases evs.len(),
{
    if evs.len() == 0 {
        c
    } else {
        spec_run(spec_transition(c, evs[0]).0, evs.drop_first())
    }
}

proof fn lemma_run_push(c: CompletionCall, s: Seq<AttemptEvent>, e: AttemptEvent)
    ensures
        spec_run(c, s.push(e)) == spec_transition(spec_run(c, s), e).0,
    decreases s.len(),
{
    if s.len() == 0 {
        assert(s.push(e)[0] == e);
        assert(s.push(e).drop_first() =~= Seq::<AttemptEvent>::empty());
        assert(spec_run(c, s) == c);
        assert(spec_run(spec_transition(c, e).0, Seq::<AttemptEvent>::empty())
            == spec_transition(c, e).0);
    } else {
        assert(s.push(e)[0] == s[0]);
        assert(s.push(e).drop_first() =~= s.drop_first().push(e));
        lemma_run_push(spec_transition(c, s[0]).0, s.drop_first(), e);
    }
}

proof fn lemma_transient_run(c: CompletionCall, evs: Seq<AttemptEvent>)
    requires
        c.wf(),
        c.in_flight(),
        forall|i: int| 0 <= i < evs.len() ==> is_transient_event(#[trigger] evs[i]),
        c.attempts_made + evs.len() <= c.policy.max_retries,
    ensures
        spec_run(c, evs).wf(),
        spec_run(c, evs).in_flight(),
        spec_run(c, evs).attempts_made == c.attempts_made + evs.len(),
        spec_run(c, evs).policy == c.policy,
        spec_run(c, evs).model == c.model,
        spec_run(c, evs).input_tokens == c.input_tokens,
    decreases evs.len(),
{
    if evs.len() > 0 {
        let c1 = spec_transition(c, evs[0]).0;
        assert(is_transient_event(evs[0]));
        assert(c1.attempts_made == c.attempts_made + 1);
        assert(c1.in_flight());
        assert(forall|i: int|
            0 <= i < evs.drop_first().len() ==> evs.drop_first()[i] == evs[i + 1]);
        lemma_transient_run(c1, evs.drop_first());
    }
}

/// Law: a fresh call that suffers exactly `max_retries` consecutive
/// transient failures and then receives a fully populated response
/// settles successfully, after exactly `max_retries + 1` attempts.
pub proof fn lemma_transients_then_success(c: CompletionCall, evs: Seq<AttemptEvent>)
    requires
        c.wf(),
        c.in_flight(),
        c.attempts_made == 0,
        evs.len() == c.policy.max_retries + 1,
        forall|i: int| 0 <= i < evs.len() - 1 ==> is_transient_event(#[trigger] evs[i]),
        evs[evs.len() - 1] matches AttemptEvent::BodyReceived(Some(_), Some(_)),
    ensures
        spec_run(c, evs).outcome matches Some(Ok(_)),
        spec_run(c, evs).attempts_made == c.policy.max_retries + 1,
{
    let front = evs.take(evs.len() - 1);
    let last = evs[evs.len() - 1];
    assert(evs =~= front.push(last));
    assert(forall|i: int| 0 <= i < front.len() ==> front[i] == evs[i]);
    lemma_transient_run(c, front);
    lemma_run_push(c, front, last);
    let c2 = spec_run(c, front);
    assert(spec_run(c, evs) == spec_transition(c2, last).0);
}

/// Law: a fresh call that suffers `max_retries + 1` consecutive transient
/// failures settles as `RetryExhausted`, carrying the failure of the
/// final attempt, after exactly `max_retries + 1` attempts.
pub proof fn lemma_transients_exhaust(c: CompletionCall, evs: Seq<AttemptEvent>)
    requires
        c.wf(),
        c.in_flight(),
        c.attempts_made == 0,
        evs.len() == c.policy.max_retries + 1,
        forall|i: int| 0 <= i < evs.len() ==> is_transient_event(#[trigger] evs[i]),
    ensures
        spec_run(c, evs).outcome matches Some(Err(CompletionError::RetryExhausted(Some(e)))) && e
            == spec_transient_of(evs[evs.len() - 1]),
        spec_run(c, evs).attempts_made == c.policy.max_retries + 1,
{
    let front = evs.take(evs.len() - 1);
    let last = evs[evs.len() - 1];
    assert(evs =~= front.push(last));
    assert(forall|i: int| 0 <= i < front.len() ==> front[i] == evs[i]);
    lemma_transient_run(c, front);
    lemma_run_push(c, front, last);
    let c2 = spec_run(c, front);
    assert(spec_run(c, evs) == spec_transition(c2, last).0);
    assert(is_transient_event(last));
}

/// Law: a 2xx response with a missing text or token field settles the
/// call immediately as a parse failure — the step is `Finished`, so no
/// backoff delay elapses and no further attempt is made.
pub proof fn lemma_missing_field_fails_immediately(c: CompletionCall, ev: AttemptEvent)
    requires
        c.wf(),
        c.in_flight(),
        ev matches AttemptEvent::BodyReceived(t, n) && (t is None || n is None),
    ensures
        spec_transition(c, ev).0.outcome matches Some(Err(CompletionError::Parse(_))),
        spec_transition(c, ev).1 == Step::Finished,
{
}

/// Law: cancellation settles the call immediately as `Cancelled` — the
/// step is `Finished`, so no retry follows a cancellation, and the
/// attempt counter does not move.
pub proof fn lemma_cancel_settles(c: CompletionCall)
    requires
        c.wf(),
        c.in_flight(),
    ensures
        spec_transition(c, AttemptEvent::Cancelled).0.outcome == Some(
            Err::<LLMResponse, CompletionError>(CompletionError::Cancelled),
        ),
        spec_transition(c, AttemptEvent::Cancelled).1 == Step::Finished,
        spec_transition(c, AttemptEvent::Cancelled).0.attempts_made == c.attempts_made,
{
}

} // verus!
