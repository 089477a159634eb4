//! The shared token-usage ledger and its price table.
//!
//! A [`TokenCount`] accumulates, per model identifier, how many input and
//! output tokens have been spent, and derives the monetary cost from a
//! fixed price table. One ledger is shared by every client of a process;
//! each `add_tokens` call settles both counters of one exchange as a
//! single unit, so a cost read never observes a half-applied exchange.

use vstd::prelude::*;
use crate::utils::strings::str_eq;

verus! {

/// Cumulative token usage for one model identifier.
#[derive(Debug, Clone)]
pub struct ModelUsage {
    pub model: String,
    pub tokens_in: usize,
    pub tokens_out: usize,
}

/// Price of one input token in nanodollars (10^-9 dollars). Models
/// absent from the table contribute no cost: an unknown model is
/// silently not charged.
pub open spec fn spec_price_in(m: Seq<char>) -> nat {
    if m == "gpt-4o"@ {
        2500
    } else if m == "gpt-4o-mini"@ {
        150
    } else if m == "o1-preview"@ {
        15000
    } else if m == "o1-mini"@ {
        3000
    } else if m == "anthropic-chat"@ {
        3000
    } else if m == "deepseek-chat"@ {
        1000
    } else if m == "o1"@ {
        15000
    } else {
        0
    }
}

/// Price of one output token in nanodollars.
pub open spec fn spec_price_out(m: Seq<char>) -> nat {
    if m == "gpt-4o"@ {
        10000
    } else if m == "gpt-4o-mini"@ {
        600
    } else if m == "o1-preview"@ {
        60000
    } else if m == "o1-mini"@ {
        12000
    } else if m == "anthropic-chat"@ {
        12000
    } else if m == "deepseek-chat"@ {
        5000
    } else if m == "o1"@ {
        60000
    } else {
        0
    }
}

/// The per-input-token price of `model`, in nanodollars.
pub fn price_in_nanodollars(model: &str) -> (r: u64)
    ensures
        r as nat == spec_price_in(model@),
{
    if str_eq(model, "gpt-4o") {
        2500
    } else if str_eq(model, "gpt-4o-mini") {
        150
    } else if str_eq(model, "o1-preview") {
        15000
    } else if str_eq(model, "o1-mini") {
        3000
    } else if str_eq(model, "anthropic-chat") {
        3000
    } else if str_eq(model, "deepseek-chat") {
        1000
    } else if str_eq(model, "o1") {
        15000
    } else {
        0
    }
}

/// The per-output-token price of `model`, in nanodollars.
pub fn price_out_nanodollars(model: &str) -> (r: u64)
    ensures
        r as nat == spec_price_out(model@),
{
    if str_eq(model, "gpt-4o") {
        10000
    } else if str_eq(model, "gpt-4o-mini") {
        600
    } else if str_eq(model, "o1-preview") {
        60000
    } else if str_eq(model, "o1-mini") {
        12000
    } else if str_eq(model, "anthropic-chat") {
        12000
    } else if str_eq(model, "deepseek-chat") {
        5000
    } else if str_eq(model, "o1") {
        60000
    } else {
        0
    }
}

/// No price in the table exceeds these bounds; they keep the cost sum
/// inside `u128`.
pub proof fn lemma_price_bounds(m: Seq<char>)
    ensures
        spec_price_in(m) <= 15000,
        spec_price_out(m) <= 60000,
{
}

/// `x`, saturated at `max`.
pub open spec fn sat_cap(x: nat, max: nat) -> nat {
    if x > max {
        max
    } else {
        x
    }
}

/// The effect of settling one exchange on one model's pair of totals:
/// both deltas are added, each counter saturating at `usize::MAX`.
pub open spec fn bump_tokens(t: (nat, nat), din: nat, dout: nat) -> (nat, nat) {
    (sat_cap(t.0 + din, usize::MAX as nat), sat_cap(t.1 + dout, usize::MAX as nat))
}

/// The `(input, output)` totals recorded for model `m`: the counters of
/// the first entry for `m`, or `(0, 0)` when no entry exists.
pub open spec fn spec_lookup(s: Seq<ModelUsage>, m: Seq<char>) -> (nat, nat)
    decreases s.len(),
{
    if s.len() == 0 {
        (0nat, 0nat)
    } else if s[0].model@ == m {
        (s[0].tokens_in as nat, s[0].tokens_out as nat)
    } else {
        spec_lookup(s.drop_first(), m)
    }
}

/// Whether some entry is recorded for model `m`.
pub open spec fn has_model(s: Seq<ModelUsage>, m: Seq<char>) -> bool {
    exists|i: int| 0 <= i < s.len() && s[i].model@ == m
}

/// Each model identifier occurs in at most one entry.
pub open spec fn models_distinct(s: Seq<ModelUsage>) -> bool {
    forall|i: int, j: int| 0 <= i < j < s.len() ==> s[i].model@ != s[j].model@
}

/// The ledger contents as a mapping from model identifier to totals.
pub open spec fn as_totals_map(s: Seq<ModelUsage>) -> Map<Seq<char>, (nat, nat)> {
    Map::new(|m: Seq<char>| has_model(s, m), |m: Seq<char>| spec_lookup(s, m))
}

/// The totals for `m` in a totals map, `(0, 0)` when `m` is absent.
pub open spec fn totals_or_zero(t: Map<Seq<char>, (nat, nat)>, m: Seq<char>) -> (nat, nat) {
    if t.dom().contains(m) {
        t[m]
    } else {
        (0nat, 0nat)
    }
}

/// The mathematical effect of one `add_tokens` call on the per-model
/// totals.
pub open spec fn spec_record(
    t: Map<Seq<char>, (nat, nat)>,
    m: Seq<char>,
    din: nat,
    dout: nat,
) -> Map<Seq<char>, (nat, nat)> {
    t.insert(m, bump_tokens(totals_or_zero(t, m), din, dout))
}

/// The cost of one entry, in nanodollars.
pub open spec fn spec_entry_cost(e: ModelUsage) -> nat {
    (e.tokens_in as nat) * spec_price_in(e.model@) + (e.tokens_out as nat) * spec_price_out(
        e.model@,
    )
}

/// The total cost of a ledger's entries, in nanodollars.
pub open spec fn spec_cost(s: Seq<ModelUsage>) -> nat
    decreases s.len(),
{
    if s.len() == 0 {
        0
    } else {
        spec_entry_cost(s[0]) + spec_cost(s.drop_first())
    }
}

proof fn lemma_lookup_first_match(s: Seq<ModelUsage>, i: int, m: Seq<char>)
    requires
        0 <= i < s.len(),
        s[i].model@ == m,
        forall|j: int| 0 <= j < i ==> s[j].model@ != m,
    ensures
        spec_lookup(s, m) == (s[i].tokens_in as nat, s[i].tokens_out as nat),
    decreases i,
{
    if i > 0 {
        assert(s.drop_first()[i - 1] == s[i]);
        assert(forall|j: int| 0 <= j < i - 1 ==> s.drop_first()[j] == s[j + 1]);
        lemma_lookup_first_match(s.drop_first(), i - 1, m);
    }
}

proof fn lemma_lookup_no_match(s: Seq<ModelUsage>, m: Seq<char>)
    requires
        forall|i: int| 0 <= i < s.len() ==> s[i].model@ != m,
    ensures
        spec_lookup(s, m) == (0nat, 0nat),
    decreases s.len(),
{
    if s.len() > 0 {
        assert(forall|i: int| 0 <= i < s.drop_first().len() ==> s.drop_first()[i] == s[i + 1]);
        lemma_lookup_no_match(s.drop_first(), m);
    }
}

proof fn lemma_lookup_update(s: Seq<ModelUsage>, i: int, e: ModelUsage, m: Seq<char>)
    requires
        0 <= i < s.len(),
        models_distinct(s),
        s[i].model@ == e.model@,
    ensures
        m == e.model@ ==> spec_lookup(s.update(i, e), m) == (
            e.tokens_in as nat,
            e.tokens_out as nat,
        ),
        m != e.model@ ==> spec_lookup(s.update(i, e), m) == spec_lookup(s, m),
    decreases s.len(),
{
    let s2 = s.update(i, e);
    if i == 0 {
        if m == e.model@ {
            assert(s2[0] == e);
        } else {
            assert(s2.drop_first() =~= s.drop_first());
        }
    } else {
        assert(s2[0] == s[0]);
        if s[0].model@ == m {
        } else {
            assert(s2.drop_first() =~= s.drop_first().update(i - 1, e));
            assert(forall|a: int, b: int|
                0 <= a < b < s.drop_first().len() ==> s.drop_first()[a] == s[a + 1]
                    && s.drop_first()[b] == s[b + 1]);
            assert(models_distinct(s.drop_first()));
            assert(s.drop_first()[i - 1] == s[i]);
            lemma_lookup_update(s.drop_first(), i - 1, e, m);
        }
    }
}

proof fn lemma_lookup_push(s: Seq<ModelUsage>, e: ModelUsage, m: Seq<char>)
    requires
        forall|i: int| 0 <= i < s.len() ==> s[i].model@ != e.model@,
    ensures
        m == e.model@ ==> spec_lookup(s.push(e), m) == (e.tokens_in as nat, e.tokens_out as nat),
        m != e.model@ ==> spec_lookup(s.push(e), m) == spec_lookup(s, m),
    decreases s.len(),
{
    let s2 = s.push(e);
    if s.len() == 0 {
        assert(s2[0] == e);
        assert(s2.drop_first() =~= Seq::<ModelUsage>::empty());
        assert(spec_lookup(Seq::<ModelUsage>::empty(), m) == (0nat, 0nat));
        assert(spec_lookup(s, m) == (0nat, 0nat));
    } else {
        assert(s2[0] == s[0]);
        assert(s2.drop_first() =~= s.drop_first().push(e));
        assert(forall|i: int| 0 <= i < s.drop_first().len() ==> s.drop_first()[i] == s[i + 1]);
        lemma_lookup_push(s.drop_first(), e, m);
    }
}

/// Concurrency-safety of the accounting, stated mathematically: two
/// settlements commute, so the final per-model totals — and with them
/// the cost — do not depend on the order in which concurrent callers'
/// updates were applied.
pub proof fn lemma_record_commutes(
    t: Map<Seq<char>, (nat, nat)>,
    m1: Seq<char>,
    a1: nat,
    b1: nat,
    m2: Seq<char>,
    a2: nat,
    b2: nat,
)
    ensures
        spec_record(spec_record(t, m1, a1, b1), m2, a2, b2) == spec_record(
            spec_record(t, m2, a2, b2),
            m1,
            a1,
            b1,
        ),
{
    let l = spec_record(spec_record(t, m1, a1, b1), m2, a2, b2);
    let r = spec_record(spec_record(t, m2, a2, b2), m1, a1, b1);
    assert(l =~= r);
}

/// The shared token-usage ledger.
#[derive(Debug)]
pub struct TokenCount {
    entries: Vec<ModelUsage>,
}

impl View for TokenCount {
    type V = Seq<ModelUsage>;

    closed spec fn view(&self) -> Seq<ModelUsage> {
        self.entries@
    }
}

impl TokenCount {
    /// The ledger's invariant: one entry per model identifier.
    pub open spec fn wf(self) -> bool {
        models_distinct(self@)
    }

    /// An empty ledger: no tokens recorded for any model.
    pub fn new() -> (r: TokenCount)
        ensures
            r@ =~= Seq::<ModelUsage>::empty(),
            r.wf(),
    {
        TokenCount { entries: Vec::new() }
    }

    fn find_model(&self, model: &str) -> (r: Option<usize>)
        ensures
            match r {
                Some(i) => i < self@.len() && self@[i as int].model@ == model@ && forall|j: int|
                    0 <= j < i ==> self@[j].model@ != model@,
                None => forall|i: int| 0 <= i < self@.len() ==> self@[i].model@ != model@,
            },
    {
        let mut i: usize = 0;
        while i < self.entries.len()
            invariant
                i <= self@.len(),
                forall|j: int| 0 <= j < i ==> self@[j].model@ != model@,
            decreases self@.len() - i,
        {
            if str_eq(self.entries[i].model.as_str(), model) {
                return Some(i);
            }
            i = i + 1;
        }
        None
    }

    /// Settle one completed exchange for `model`: add both token deltas
    /// as a single unit (each counter saturating at `usize::MAX`). The
    /// totals of every other model are untouched, so concurrent callers
    /// that serialise their `add_tokens` calls can never observe or
    /// produce a half-applied exchange, whatever their order.
    pub fn add_tokens(&mut self, model: &str, input_tokens: usize, output_tokens: usize)
        requires
            old(self).wf(),
        ensures
            final(self).wf(),
            spec_lookup(final(self)@, model@) == bump_tokens(
                spec_lookup(old(self)@, model@),
                input_tokens as nat,
                output_tokens as nat,
            ),
            forall|m: Seq<char>|
                m != model@ ==> spec_lookup(final(self)@, m) == spec_lookup(old(self)@, m),
            as_totals_map(final(self)@) == spec_record(
                as_totals_map(old(self)@),
                model@,
                input_tokens as nat,
                output_tokens as nat,
            ),
    {
        let ghost s0 = self@;
        match self.find_model(model) {
            Some(i) => {
                proof {
                    lemma_lookup_first_match(s0, i as int, model@);
                }
                let new_in: usize = self.entries[i].tokens_in.saturating_add(input_tokens);
                let new_out: usize = self.entries[i].tokens_out.saturating_add(output_tokens);
                let entry = &mut self.entries[i];
                let ghost old_entry = *entry;
                entry.tokens_in = new_in;
                entry.tokens_out = new_out;
                proof {
                    let e2 = ModelUsage {
                        tokens_in: new_in,
                        tokens_out: new_out,
                        ..old_entry
                    };
                    assert(self@ =~= s0.update(i as int, e2));
                    assert forall|m: Seq<char>| true implies #[trigger] spec_lookup(
                        self@,
                        m,
                    ) == if m == model@ {
                        bump_tokens(
                            spec_lookup(s0, m),
                            input_tokens as nat,
                            output_tokens as nat,
                        )
                    } else {
                        spec_lookup(s0, m)
                    } by {
                        lemma_lookup_update(s0, i as int, e2, m);
                    }
                    assert(models_distinct(self@));
                    assert(forall|k: int|
                        0 <= k < self@.len() ==> #[trigger] self@[k].model@ == s0[k].model@);
                    assert forall|m: Seq<char>| #[trigger] has_model(self@, m) == has_model(
                        s0,
                        m,
                    ) by {
                        if has_model(self@, m) {
                            let k = choose|k: int|
                                0 <= k < self@.len() && self@[k].model@ == m;
                            assert(s0[k].model@ == m);
                        }
                        if has_model(s0, m) {
                            let k = choose|k: int| 0 <= k < s0.len() && s0[k].model@ == m;
                            assert(self@[k].model@ == m);
                        }
                    }
                    assert(has_model(s0, model@));
                    assert(as_totals_map(self@) =~= spec_record(
                        as_totals_map(s0),
                        model@,
                        input_tokens as nat,
                        output_tokens as nat,
                    ));
                }
            },
            None => {
                let entry = ModelUsage {
                    model: model.to_owned(),
                    tokens_in: input_tokens,
                    tokens_out: output_tokens,
                };
                self.entries.push(entry);
                proof {
                    lemma_lookup_no_match(s0, model@);
                    assert forall|m: Seq<char>| true implies #[trigger] spec_lookup(
                        self@,
                        m,
                    ) == if m == model@ {
                        bump_tokens(
                            spec_lookup(s0, m),
                            input_tokens as nat,
                            output_tokens as nat,
                        )
                    } else {
                        spec_lookup(s0, m)
                    } by {
                        lemma_lookup_push(s0, self@[s0.len() as int], m);
                        assert(self@ =~= s0.push(self@[s0.len() as int]));
                    }
                    assert(models_distinct(self@));
                    assert(!has_model(s0, model@));
                    assert(self@[s0.len() as int].model@ == model@);
                    assert forall|m: Seq<char>| #[trigger] has_model(self@, m) == (has_model(
                        s0,
                        m,
                    ) || m == model@) by {
                        if has_model(self@, m) {
                            let k = choose|k: int|
                                0 <= k < self@.len() && self@[k].model@ == m;
                            if k < s0.len() {
                                assert(s0[k].model@ == m);
                            }
                        }
                        if has_model(s0, m) {
                            let k = choose|k: int| 0 <= k < s0.len() && s0[k].model@ == m;
                            assert(self@[k].model@ == m);
                        }
                    }
                    assert(as_totals_map(self@) =~= spec_record(
                        as_totals_map(s0),
                        model@,
                        input_tokens as nat,
                        output_tokens as nat,
                    ));
                }
            },
        }
    }

    /// The cumulative input-token total recorded for `model`.
    pub fn tokens_in_for(&self, model: &str) -> (r: usize)
        ensures
            r as nat == spec_lookup(self@, model@).0,
    {
        match self.find_model(model) {
            Some(i) => {
                proof {
                    lemma_lookup_first_match(self@, i as int, model@);
                }
                self.entries[i].tokens_in
            },
            None => {
                proof {
                    lemma_lookup_no_match(self@, model@);
                }
                0
            },
        }
    }

    /// The cumulative output-token total recorded for `model`.
    pub fn tokens_out_for(&self, model: &str) -> (r: usize)
        ensures
            r as nat == spec_lookup(self@, model@).1,
    {
        match self.find_model(model) {
            Some(i) => {
                proof {
                    lemma_lookup_first_match(self@, i as int, model@);
                }
                self.entries[i].tokens_out
            },
            None => {
                proof {
                    lemma_lookup_no_match(self@, model@);
                }
                0
            },
        }
    }

    /// The total cost of everything recorded so far, in nanodollars:
    /// the sum over all models of `input · price_in + output · price_out`
    /// from the final per-model totals (saturating at `u128::MAX`, which
    /// real token counts never approach).
    pub fn get_cost(&self) -> (r: u128)
        ensures
            r as nat == sat_cap(spec_cost(self@), u128::MAX as nat),
    {
        let mut total: u128 = 0;
        let mut i: usize = 0;
        while i < self.entries.len()
            invariant
                i <= self@.len(),
                total as nat == sat_cap(spec_cost(self@.take(i as int)), u128::MAX as nat),
            decreases self@.len() - i,
        {
            let pin: u64 = price_in_nanodollars(self.entries[i].model.as_str());
            let pout: u64 = price_out_nanodollars(self.entries[i].model.as_str());
            proof {
                lemma_price_bounds(self@[i as int].model@);
                assert((self@[i as int].tokens_in as nat) * (pin as nat) <= (usize::MAX as nat)
                    * 15000) by (nonlinear_arith)
                    requires
                        self@[i as int].tokens_in as nat <= usize::MAX as nat,
                        pin as nat <= 15000,
                ;
                assert((self@[i as int].tokens_out as nat) * (pout as nat) <= (usize::MAX as nat)
                    * 60000) by (nonlinear_arith)
                    requires
                        self@[i as int].tokens_out as nat <= usize::MAX as nat,
                        pout as nat <= 60000,
                ;
            }
            let term: u128 = (self.entries[i].tokens_in as u128) * (pin as u128) + (
            self.entries[i].tokens_out as u128) * (pout as u128);
            total = total.saturating_add(term);
            proof {
                lemma_cost_take_step(self@, i as int);
            }
            i = i + 1;
        }
        proof {
            assert(self@.take(self@.len() as int) =~= self@);
        }
        total
    }
}

proof fn lemma_lookup_remove(s: Seq<ModelUsage>, j: int, m: Seq<char>)
    requires
        0 <= j < s.len(),
        s[j].model@ != m,
    ensures
        spec_lookup(s.remove(j), m) == spec_lookup(s, m),
    decreases s.len(),
{
    if j == 0 {
        assert(s.remove(0) =~= s.drop_first());
    } else {
        if s[0].model@ == m {
            assert(s.remove(j)[0] == s[0]);
        } else {
            assert(s.remove(j)[0] == s[0]);
            assert(s.remove(j).drop_first() =~= s.drop_first().remove(j - 1));
            assert(s.drop_first()[j - 1] == s[j]);
            lemma_lookup_remove(s.drop_first(), j - 1, m);
        }
    }
}

proof fn lemma_cost_remove(s: Seq<ModelUsage>, j: int)
    requires
        0 <= j < s.len(),
    ensures
        spec_cost(s) == spec_entry_cost(s[j]) + spec_cost(s.remove(j)),
    decreases s.len(),
{
    if j == 0 {
        assert(s.remove(0) =~= s.drop_first());
    } else {
        assert(s.remove(j)[0] == s[0]);
        assert(s.remove(j).drop_first() =~= s.drop_first().remove(j - 1));
        assert(s.drop_first()[j - 1] == s[j]);
        lemma_cost_remove(s.drop_first(), j - 1);
    }
}

/// Law: the total cost is a function of the per-model totals alone. Two
/// well-formed ledger contents that record the same totals for every
/// model — however the updates that produced them were interleaved —
/// cost the same.
pub proof fn lemma_cost_determined_by_totals(s1: Seq<ModelUsage>, s2: Seq<ModelUsage>)
    requires
        models_distinct(s1),
        models_distinct(s2),
        as_totals_map(s1) == as_totals_map(s2),
    ensures
        spec_cost(s1) == spec_cost(s2),
    decreases s1.len(),
{
    if s1.len() == 0 {
        if s2.len() > 0 {
            assert(has_model(s2, s2[0].model@));
            assert(as_totals_map(s2).dom().contains(s2[0].model@));
            assert(has_model(s1, s2[0].model@));
            assert(false);
        }
    } else {
        let e = s1[0];
        let m = e.model@;
        assert(forall|l: int| 0 <= l < 0 ==> s1[l].model@ != m);
        lemma_lookup_first_match(s1, 0, m);
        assert(has_model(s1, m));
        assert(as_totals_map(s1).dom().contains(m));
        assert(has_model(s2, m));
        let j = choose|j: int| 0 <= j < s2.len() && s2[j].model@ == m;
        assert(forall|l: int| 0 <= l < j ==> s2[l].model@ != m);
        lemma_lookup_first_match(s2, j, m);
        assert(as_totals_map(s1)[m] == as_totals_map(s2)[m]);
        assert(s2[j].tokens_in == e.tokens_in && s2[j].tokens_out == e.tokens_out);
        assert(spec_entry_cost(s2[j]) == spec_entry_cost(e));
        let t1 = s1.drop_first();
        let t2 = s2.remove(j);
        assert(forall|k: int| 0 <= k < t1.len() ==> t1[k] == s1[k + 1]);
        assert(forall|k: int|
            0 <= k < t2.len() ==> t2[k] == (if k < j {
                s2[k]
            } else {
                s2[k + 1]
            }));
        assert(models_distinct(t1));
        assert(models_distinct(t2)) by {
            assert forall|a: int, b: int| 0 <= a < b < t2.len() implies t2[a].model@
                != t2[b].model@ by {
                let sa = if a < j {
                    a
                } else {
                    a + 1
                };
                let sb = if b < j {
                    b
                } else {
                    b + 1
                };
                assert(t2[a] == s2[sa] && t2[b] == s2[sb]);
                assert(0 <= sa < sb < s2.len());
            }
        }
        assert(forall|k: int| 0 <= k < t1.len() ==> #[trigger] t1[k].model@ != m);
        assert(forall|k: int| 0 <= k < t2.len() ==> #[trigger] t2[k].model@ != m);
        assert forall|mm: Seq<char>| true implies #[trigger] has_model(t1, mm) == has_model(
            t2,
            mm,
        ) && (has_model(t1, mm) ==> spec_lookup(t1, mm) == spec_lookup(t2, mm)) by {
            if mm == m {
                assert(!has_model(t1, mm));
                assert(!has_model(t2, mm));
            } else {
                assert(has_model(t1, mm) == has_model(s1, mm)) by {
                    if has_model(t1, mm) {
                        let k = choose|k: int| 0 <= k < t1.len() && t1[k].model@ == mm;
                        assert(s1[k + 1].model@ == mm);
                    }
                    if has_model(s1, mm) {
                        let k = choose|k: int| 0 <= k < s1.len() && s1[k].model@ == mm;
                        assert(k != 0);
                        assert(t1[k - 1].model@ == mm);
                    }
                }
                assert(has_model(t2, mm) == has_model(s2, mm)) by {
                    if has_model(t2, mm) {
                        let k = choose|k: int| 0 <= k < t2.len() && t2[k].model@ == mm;
                        if k < j {
                            assert(s2[k].model@ == mm);
                        } else {
                            assert(s2[k + 1].model@ == mm);
                        }
                    }
                    if has_model(s2, mm) {
                        let k = choose|k: int| 0 <= k < s2.len() && s2[k].model@ == mm;
                        assert(k != j);
                        if k < j {
                            assert(t2[k].model@ == mm);
                        } else {
                            assert(t2[k - 1].model@ == mm);
                        }
                    }
                }
                assert(has_model(s1, mm) == has_model(s2, mm)) by {
                    assert(as_totals_map(s1).dom().contains(mm) == has_model(s1, mm));
                    assert(as_totals_map(s2).dom().contains(mm) == has_model(s2, mm));
                }
                if has_model(t1, mm) {
                    assert(spec_lookup(t1, mm) == spec_lookup(s1, mm)) by {
                        assert(s1[0].model@ == m);
                    }
                    lemma_lookup_remove(s2, j, mm);
                    assert(as_totals_map(s1)[mm] == as_totals_map(s2)[mm]);
                }
            }
        }
        assert(as_totals_map(t1) =~= as_totals_map(t2));
        lemma_cost_determined_by_totals(t1, t2);
        lemma_cost_remove(s2, j);
    }
}

proof fn lemma_cost_push(s: Seq<ModelUsage>, e: ModelUsage)
    ensures
        spec_cost(s.push(e)) == spec_cost(s) + spec_entry_cost(e),
    decreases s.len(),
{
    if s.len() == 0 {
        assert(s.push(e)[0] == e);
        assert(s.push(e).drop_first() =~= Seq::<ModelUsage>::empty());
        assert(spec_cost(Seq::<ModelUsage>::empty()) == 0);
        assert(spec_cost(s) == 0);
    } else {
        assert(s.push(e)[0] == s[0]);
        assert(s.push(e).drop_first() =~= s.drop_first().push(e));
        lemma_cost_push(s.drop_first(), e);
    }
}

proof fn lemma_cost_take_step(s: Seq<ModelUsage>, i: int)
    requires
        0 <= i < s.len(),
    ensures
        spec_cost(s.take(i + 1)) == spec_cost(s.take(i)) + spec_entry_cost(s[i]),
{
    assert(s.take(i + 1) =~= s.take(i).push(s[i]));
    lemma_cost_push(s.take(i), s[i]);
}

} // verus!
