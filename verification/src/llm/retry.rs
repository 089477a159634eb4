//! Deterministic exponential-backoff schedule for a bounded retry loop.

use vstd::prelude::*;

verus! {

/// Backoff schedule for retried completion attempts.
///
/// For a failed attempt `n` (attempts are counted from 1) the policy
/// yields the delay `min(base_ms * 2^(n - 1), cap_ms)` in milliseconds,
/// and yields nothing once `n` exceeds `max_retries`: that signals retry
/// exhaustion, not an error. The schedule is a pure function of
/// `(max_retries, base_ms, cap_ms, n)`: there is no hidden jitter, so
/// tests can predict every delay exactly.
#[derive(Clone, Copy, Debug)]
pub struct RetryPolicy {
    pub max_retries: u64,
    pub base_ms: u64,
    pub cap_ms: u64,
}

/// `2^n` as a mathematical value.
pub open spec fn pow2(n: nat) -> nat
    decreases n,
{
    if n == 0 {
        1
    } else {
        2 * pow2((n - 1) as nat)
    }
}

impl RetryPolicy {
    /// The uncapped backoff value `base_ms * 2^(n-1)` for failed attempt `n >= 1`.
    pub open spec fn spec_raw_delay(self, n: nat) -> nat
        recommends
            n >= 1,
    {
        (self.base_ms as nat) * pow2((n - 1) as nat)
    }

    /// The capped delay for failed attempt `n >= 1`.
    pub open spec fn spec_delay_value(self, n: nat) -> u64
        recommends
            n >= 1,
    {
        if self.spec_raw_delay(n) >= self.cap_ms {
            self.cap_ms
        } else {
            self.spec_raw_delay(n) as u64
        }
    }

    /// The full schedule: a delay for each failed attempt `1 ..= max_retries`,
    /// nothing afterwards.
    pub open spec fn spec_delay(self, n: nat) -> Option<u64> {
        if 1 <= n && n <= self.max_retries {
            Some(self.spec_delay_value(n))
        } else {
            None
        }
    }

    /// The delay to sleep after failed attempt `attempt`, or `None` when
    /// the retry budget is exhausted.
    pub fn next_delay(&self, attempt: u64) -> (r: Option<u64>)
        ensures
            r == self.spec_delay(attempt as nat),
    {
        if attempt < 1 || attempt > self.max_retries {
            return None;
        }
        let mut d: u64 = if self.base_ms >= self.cap_ms {
            self.cap_ms
        } else {
            self.base_ms
        };
        proof {
            assert(pow2(0) == 1);
            assert((self.base_ms as nat) * pow2(0) == self.base_ms) by (nonlinear_arith)
                requires
                    pow2(0) == 1,
            ;
        }
        let mut i: u64 = 1;
        while i < attempt
            invariant
                1 <= i <= attempt,
                attempt <= self.max_retries,
                d == self.spec_delay_value(i as nat),
            decreases attempt - i,
        {
            proof {
                self.lemma_raw_delay_doubles((i + 1) as nat);
            }
            let next: u64 = if d > u64::MAX / 2 {
                // Doubling would overflow `u64`, so the uncapped value is
                // certainly past the cap.
                self.cap_ms
            } else if 2 * d >= self.cap_ms {
                self.cap_ms
            } else {
                2 * d
            };
            d = next;
            i = i + 1;
        }
        Some(d)
    }

    proof fn lemma_raw_delay_doubles(self, n: nat)
        requires
            n >= 2,
        ensures
            self.spec_raw_delay(n) == 2 * self.spec_raw_delay((n - 1) as nat),
    {
        assert(pow2((n - 1) as nat) == 2 * pow2((n - 2) as nat));
        assert(self.base_ms * (2 * pow2((n - 2) as nat)) == 2 * (self.base_ms * pow2(
            (n - 2) as nat,
        ))) by (nonlinear_arith);
    }
}

/// `pow2` never decreases.
pub proof fn lemma_pow2_monotone(a: nat, b: nat)
    requires
        a <= b,
    ensures
        pow2(a) <= pow2(b),
    decreases b,
{
    if a < b {
        lemma_pow2_monotone(a, (b - 1) as nat);
        assert(pow2(b) == 2 * pow2((b - 1) as nat));
    }
}

/// Law: the schedule yields a delay exactly for the failed attempts
/// `1 ..= max_retries`; in particular it yields `max_retries` delays in
/// all and nothing for attempt `max_retries + 1`.
pub proof fn lemma_delay_yielded_iff_in_budget(p: RetryPolicy, n: nat)
    ensures
        p.spec_delay(n) is Some <==> 1 <= n <= p.max_retries,
{
}

/// Law: every delay the schedule yields is at most the cap.
pub proof fn lemma_delay_le_cap(p: RetryPolicy, n: nat)
    requires
        p.spec_delay(n) is Some,
    ensures
        p.spec_delay(n).unwrap() <= p.cap_ms,
{
}

/// Law: the delays are non-decreasing in the attempt number; once the cap
/// is reached they stay at the cap.
pub proof fn lemma_delay_monotone(p: RetryPolicy, m: nat, n: nat)
    requires
        1 <= m <= n <= p.max_retries,
    ensures
        p.spec_delay(m).unwrap() <= p.spec_delay(n).unwrap(),
{
    lemma_pow2_monotone((m - 1) as nat, (n - 1) as nat);
    assert(p.base_ms * pow2((m - 1) as nat) <= p.base_ms * pow2((n - 1) as nat))
        by (nonlinear_arith)
        requires
            pow2((m - 1) as nat) <= pow2((n - 1) as nat),
    ;
}

} // verus!
