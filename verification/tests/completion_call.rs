use agent_laboratory::llm::call::AttemptEvent;
use agent_laboratory::llm::call::CompletionCall;
use agent_laboratory::llm::call::CompletionError;
use agent_laboratory::llm::call::MissingField;
use agent_laboratory::llm::call::Step;
use agent_laboratory::llm::call::TransientError;
use agent_laboratory::llm::retry::RetryPolicy;
use agent_laboratory::llm::TokenCount;
use agent_laboratory::utils::AgentError;

fn policy(max_retries: u64) -> RetryPolicy {
    RetryPolicy { max_retries, base_ms: 100, cap_ms: 800 }
}

#[test]
fn transient_failures_are_retried_then_success_wins() {
    // max_retries = 2: two transient failures, then a valid response.
    let mut ledger = TokenCount::new();
    let mut call = CompletionCall::new(policy(2), "deepseek-chat".to_string(), 20);
    let s1 = call.report(AttemptEvent::TransportFailed("connection reset".to_string()), &mut ledger);
    assert!(matches!(s1, Step::Sleep(100)));
    let s2 = call.report(AttemptEvent::HttpFailed(503, "busy".to_string()), &mut ledger);
    assert!(matches!(s2, Step::Sleep(200)));
    let s3 = call.report(
        AttemptEvent::BodyReceived(Some("answer".to_string()), Some(70)),
        &mut ledger,
    );
    assert!(matches!(s3, Step::Finished));
    assert_eq!(call.attempts_made, 3);
    let resp = call.into_outcome().unwrap();
    assert_eq!(resp.text, "answer");
    assert_eq!(resp.tokens_used, 70);
}

#[test]
fn exhausted_retries_surface_the_last_error() {
    let mut ledger = TokenCount::new();
    let mut call = CompletionCall::new(policy(1), "deepseek-chat".to_string(), 5);
    let s1 = call.report(AttemptEvent::TransportFailed("first".to_string()), &mut ledger);
    assert!(matches!(s1, Step::Sleep(_)));
    let s2 = call.report(AttemptEvent::HttpFailed(500, "oops".to_string()), &mut ledger);
    assert!(matches!(s2, Step::Finished));
    assert_eq!(call.attempts_made, 2);
    let err = call.into_outcome().unwrap_err();
    match err {
        CompletionError::RetryExhausted(Some(TransientError::HttpStatus(status, body))) => {
            assert_eq!(status, 500);
            assert_eq!(body, "oops");
        }
        other => panic!("unexpected error: {:?}", other),
    }
    // nothing succeeded, so nothing was charged
    assert_eq!(ledger.tokens_in_for("deepseek-chat"), 0);
    assert_eq!(ledger.get_cost(), 0);
}

#[test]
fn missing_text_field_fails_immediately_without_retry() {
    let mut ledger = TokenCount::new();
    let mut call = CompletionCall::new(policy(5), "deepseek-chat".to_string(), 20);
    // a 200 response whose body misses the text field: no sleep follows
    let step = call.report(AttemptEvent::BodyReceived(None, Some(50)), &mut ledger);
    assert!(matches!(step, Step::Finished));
    assert_eq!(call.attempts_made, 1);
    let err = call.into_outcome().unwrap_err();
    assert!(matches!(err, CompletionError::Parse(MissingField::Text)));
    assert_eq!(ledger.tokens_in_for("deepseek-chat"), 0);
}

#[test]
fn missing_token_field_fails_immediately_too() {
    let mut ledger = TokenCount::new();
    let mut call = CompletionCall::new(policy(5), "deepseek-chat".to_string(), 20);
    let step = call.report(
        AttemptEvent::BodyReceived(Some("text".to_string()), None),
        &mut ledger,
    );
    assert!(matches!(step, Step::Finished));
    let err = call.into_outcome().unwrap_err();
    assert!(matches!(err, CompletionError::Parse(MissingField::TokenCount)));
}

#[test]
fn cancellation_settles_the_call_at_once() {
    let mut ledger = TokenCount::new();
    let mut call = CompletionCall::new(policy(5), "deepseek-chat".to_string(), 20);
    let s1 = call.report(AttemptEvent::TransportFailed("blip".to_string()), &mut ledger);
    assert!(matches!(s1, Step::Sleep(_)));
    // the caller's context is cancelled during the backoff delay
    let s2 = call.report(AttemptEvent::Cancelled, &mut ledger);
    assert!(matches!(s2, Step::Finished));
    let err = call.into_outcome().unwrap_err();
    assert!(matches!(err, CompletionError::Cancelled));
    assert_eq!(ledger.get_cost(), 0);
}

#[test]
fn example_scenario_settles_ledger_and_response() {
    // config {max_retries: 3, backoff_base_ms: 100, backoff_cap_ms: 800};
    // transient failures on attempts 1 and 2, then a valid response
    // {text: "ok", total_tokens: 50} with 20 locally estimated input tokens.
    let mut ledger = TokenCount::new();
    let mut call = CompletionCall::new(
        RetryPolicy { max_retries: 3, base_ms: 100, cap_ms: 800 },
        "deepseek-chat".to_string(),
        20,
    );
    let s1 = call.report(AttemptEvent::TransportFailed("blip".to_string()), &mut ledger);
    assert!(matches!(s1, Step::Sleep(100)));
    let s2 = call.report(AttemptEvent::HttpFailed(429, "limited".to_string()), &mut ledger);
    assert!(matches!(s2, Step::Sleep(200)));
    let s3 = call.report(AttemptEvent::BodyReceived(Some("ok".to_string()), Some(50)), &mut ledger);
    assert!(matches!(s3, Step::Finished));
    let resp = call.into_outcome().unwrap();
    assert_eq!(resp.text, "ok");
    assert_eq!(resp.tokens_used, 50);
    assert_eq!(ledger.tokens_in_for("deepseek-chat"), 20);
    assert_eq!(ledger.tokens_out_for("deepseek-chat"), 30);
}

#[test]
fn output_tokens_clamp_at_zero_when_total_undershoots() {
    let mut ledger = TokenCount::new();
    let mut call = CompletionCall::new(policy(3), "deepseek-chat".to_string(), 20);
    let step = call.report(AttemptEvent::BodyReceived(Some("short".to_string()), Some(10)), &mut ledger);
    assert!(matches!(step, Step::Finished));
    let resp = call.into_outcome().unwrap();
    assert_eq!(resp.tokens_used, 10);
    assert_eq!(ledger.tokens_in_for("deepseek-chat"), 20);
    assert_eq!(ledger.tokens_out_for("deepseek-chat"), 0);
}

#[test]
fn errors_render_their_api_messages() {
    let e = CompletionError::RetryExhausted(Some(TransientError::HttpStatus(503, "oops".to_string())));
    match e.to_agent_error() {
        AgentError::Api(m) => assert_eq!(m, "API error: 503 - oops"),
        other => panic!("unexpected error: {:?}", other),
    }
    let e = CompletionError::RetryExhausted(Some(TransientError::Transport("down".to_string())));
    match e.to_agent_error() {
        AgentError::Api(m) => assert_eq!(m, "down"),
        other => panic!("unexpected error: {:?}", other),
    }
    let e = CompletionError::RetryExhausted(None);
    match e.to_agent_error() {
        AgentError::Api(m) => assert_eq!(m, "Max retries exceeded"),
        other => panic!("unexpected error: {:?}", other),
    }
    let e = CompletionError::Parse(MissingField::Text);
    match e.to_agent_error() {
        AgentError::Api(m) => assert_eq!(m, "Missing response text"),
        other => panic!("unexpected error: {:?}", other),
    }
    let e = CompletionError::Parse(MissingField::TokenCount);
    match e.to_agent_error() {
        AgentError::Api(m) => assert_eq!(m, "Missing token count"),
        other => panic!("unexpected error: {:?}", other),
    }
    let e = CompletionError::Cancelled;
    match e.to_agent_error() {
        AgentError::Api(m) => assert_eq!(m, "Request cancelled"),
        other => panic!("unexpected error: {:?}", other),
    }
}
