use agent_laboratory::llm::TokenCount;

#[test]
fn cost_follows_the_price_table_exactly() {
    let mut ledger = TokenCount::new();
    assert_eq!(ledger.get_cost(), 0);
    ledger.add_tokens("gpt-4o", 1000, 500);
    // 1000 * 2500 + 500 * 10000 nanodollars
    assert_eq!(ledger.get_cost(), 7_500_000);
    ledger.add_tokens("deepseek-chat", 20, 30);
    // plus 20 * 1000 + 30 * 5000 nanodollars
    assert_eq!(ledger.get_cost(), 7_500_000 + 170_000);
}

#[test]
fn unknown_models_are_counted_but_not_charged() {
    let mut ledger = TokenCount::new();
    ledger.add_tokens("mystery-model", 100, 100);
    assert_eq!(ledger.tokens_in_for("mystery-model"), 100);
    assert_eq!(ledger.tokens_out_for("mystery-model"), 100);
    assert_eq!(ledger.get_cost(), 0);
}

#[test]
fn totals_accumulate_per_model() {
    let mut ledger = TokenCount::new();
    ledger.add_tokens("o1-mini", 10, 20);
    ledger.add_tokens("o1-mini", 5, 7);
    assert_eq!(ledger.tokens_in_for("o1-mini"), 15);
    assert_eq!(ledger.tokens_out_for("o1-mini"), 27);
    assert_eq!(ledger.tokens_in_for("o1"), 0);
    assert_eq!(ledger.tokens_out_for("o1"), 0);
}

#[test]
fn cost_is_independent_of_recording_order() {
    let records: [(&str, usize, usize); 4] = [
        ("gpt-4o", 100, 50),
        ("deepseek-chat", 30, 60),
        ("gpt-4o", 7, 3),
        ("anthropic-chat", 11, 13),
    ];
    let mut forward = TokenCount::new();
    for (m, i, o) in records.iter() {
        forward.add_tokens(m, *i, *o);
    }
    let mut backward = TokenCount::new();
    for (m, i, o) in records.iter().rev() {
        backward.add_tokens(m, *i, *o);
    }
    assert_eq!(forward.get_cost(), backward.get_cost());
    for (m, _, _) in records.iter() {
        assert_eq!(forward.tokens_in_for(m), backward.tokens_in_for(m));
        assert_eq!(forward.tokens_out_for(m), backward.tokens_out_for(m));
    }
}

#[test]
fn the_messages_adapter_usage_is_not_charged() {
    // the messages adapter's canonical identifier has no price row, so
    // its usage is recorded but costs nothing
    let mut ledger = TokenCount::new();
    ledger.add_tokens("anthropic-messages", 100, 100);
    assert_eq!(ledger.tokens_in_for("anthropic-messages"), 100);
    assert_eq!(ledger.get_cost(), 0);
}
