use agent_laboratory::llm::retry::RetryPolicy;

#[test]
fn delays_double_up_to_the_cap() {
    let p = RetryPolicy { max_retries: 6, base_ms: 100, cap_ms: 800 };
    assert_eq!(p.next_delay(1), Some(100));
    assert_eq!(p.next_delay(2), Some(200));
    assert_eq!(p.next_delay(3), Some(400));
    assert_eq!(p.next_delay(4), Some(800));
    assert_eq!(p.next_delay(5), Some(800));
    assert_eq!(p.next_delay(6), Some(800));
}

#[test]
fn exactly_max_retries_delays_are_yielded() {
    let p = RetryPolicy { max_retries: 3, base_ms: 100, cap_ms: 800 };
    assert_eq!(p.next_delay(0), None);
    assert!(p.next_delay(1).is_some());
    assert!(p.next_delay(2).is_some());
    assert!(p.next_delay(3).is_some());
    assert_eq!(p.next_delay(4), None);
}

#[test]
fn delays_are_nondecreasing_and_capped() {
    let p = RetryPolicy { max_retries: 20, base_ms: 7, cap_ms: 5000 };
    let mut prev = 0u64;
    for n in 1..=20 {
        let d = p.next_delay(n).unwrap();
        assert!(d >= prev);
        assert!(d <= p.cap_ms);
        prev = d;
    }
}

#[test]
fn cap_below_base_pins_every_delay_to_the_cap() {
    let p = RetryPolicy { max_retries: 2, base_ms: 1000, cap_ms: 300 };
    assert_eq!(p.next_delay(1), Some(300));
    assert_eq!(p.next_delay(2), Some(300));
}

#[test]
fn zero_base_never_waits() {
    let p = RetryPolicy { max_retries: 3, base_ms: 0, cap_ms: 800 };
    assert_eq!(p.next_delay(1), Some(0));
    assert_eq!(p.next_delay(2), Some(0));
    assert_eq!(p.next_delay(3), Some(0));
}
