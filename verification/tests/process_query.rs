use agent_laboratory::tools::arxiv::process_query;
use agent_laboratory::tools::arxiv::MAX_QUERY_LENGTH;

#[test]
fn test_process_query() {
    // Test short query remains unchanged
    let short_query = "quantum computing";
    assert_eq!(process_query(short_query), short_query);

    // Test long query gets truncated appropriately
    let long_query = "a".repeat(MAX_QUERY_LENGTH + 100);
    let processed = process_query(&long_query);
    assert!(processed.len() <= MAX_QUERY_LENGTH);

    // Test space normalization
    let spaced_query = "machine   learning   neural   networks";
    let processed = process_query(spaced_query);
    assert_eq!(
        processed.split_whitespace().collect::<Vec<_>>(),
        ["machine", "learning", "neural", "networks"]
    );
}

#[test]
fn long_query_keeps_the_words_that_fit() {
    // 60 words of 9 characters: each costs 10 against the budget of 300,
    // so exactly the first 30 fit.
    let words: Vec<String> = (0..60).map(|i| format!("w{:08}", i)).collect();
    let query = words.join(" ");
    assert!(query.len() > MAX_QUERY_LENGTH);
    let processed = process_query(&query);
    let kept: Vec<&str> = processed.split_whitespace().collect();
    assert_eq!(kept.len(), 30);
    assert_eq!(kept[0], "w00000000");
    assert_eq!(kept[29], "w00000029");
    assert!(processed.len() <= MAX_QUERY_LENGTH);
}

#[test]
fn long_single_word_query_becomes_empty() {
    // One word longer than the whole budget cannot be kept.
    let query = "b".repeat(MAX_QUERY_LENGTH + 1);
    assert_eq!(process_query(&query), "");
}
