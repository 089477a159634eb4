use agent_laboratory::llm::call::AttemptEvent;
use agent_laboratory::llm::provider::build_auth_header;
use agent_laboratory::llm::provider::LLMProvider;

#[test]
fn providers_report_their_identities() {
    assert_eq!(LLMProvider::DeepSeek.model_name(), "deepseek-chat");
    assert_eq!(LLMProvider::Claude.model_name(), "anthropic-messages");
    assert_eq!(
        LLMProvider::DeepSeek.api_url(),
        "https://api.deepseek.com/v1/chat/completions"
    );
    assert_eq!(LLMProvider::Claude.api_url(), "https://api.anthropic.com/v1/messages");
    assert_eq!(LLMProvider::DeepSeek.text_pointer(), "/choices/0/message/content");
    assert_eq!(LLMProvider::Claude.text_pointer(), "/content/0/text");
    assert_eq!(LLMProvider::DeepSeek.tokens_pointer(), "/usage/total_tokens");
}

#[test]
fn non_2xx_statuses_are_transient_failures() {
    let ev = LLMProvider::DeepSeek.classify_response(503, "busy".to_string());
    match ev {
        AttemptEvent::HttpFailed(status, body) => {
            assert_eq!(status, 503);
            assert_eq!(body, "busy");
        }
        _ => panic!("expected a transient HTTP failure"),
    }
    assert!(matches!(
        LLMProvider::Claude.classify_response(199, String::new()),
        AttemptEvent::HttpFailed(199, _)
    ));
    assert!(matches!(
        LLMProvider::Claude.classify_response(300, String::new()),
        AttemptEvent::HttpFailed(300, _)
    ));
}

#[test]
fn deepseek_success_bodies_yield_both_fields() {
    let body = r#"{"choices":[{"message":{"content":"hello"}}],"usage":{"total_tokens":50}}"#;
    let ev = LLMProvider::DeepSeek.classify_response(200, body.to_string());
    match ev {
        AttemptEvent::BodyReceived(text, tokens) => {
            assert_eq!(text.as_deref(), Some("hello"));
            assert_eq!(tokens, Some(50));
        }
        _ => panic!("expected a parsed body"),
    }
}

#[test]
fn claude_success_bodies_yield_both_fields() {
    let body = r#"{"content":[{"text":"hi there"}],"usage":{"total_tokens":12}}"#;
    let ev = LLMProvider::Claude.classify_response(200, body.to_string());
    match ev {
        AttemptEvent::BodyReceived(text, tokens) => {
            assert_eq!(text.as_deref(), Some("hi there"));
            assert_eq!(tokens, Some(12));
        }
        _ => panic!("expected a parsed body"),
    }
}

#[test]
fn malformed_bodies_yield_missing_fields() {
    // not JSON at all
    let ev = LLMProvider::DeepSeek.classify_response(200, "not json".to_string());
    assert!(matches!(ev, AttemptEvent::BodyReceived(None, None)));
    // JSON, but the text path is absent
    let body = r#"{"usage":{"total_tokens":50}}"#;
    let ev = LLMProvider::DeepSeek.classify_response(200, body.to_string());
    match ev {
        AttemptEvent::BodyReceived(text, tokens) => {
            assert_eq!(text, None);
            assert_eq!(tokens, Some(50));
        }
        _ => panic!("expected a parsed body"),
    }
    // the token field has the wrong type
    let body = r#"{"choices":[{"message":{"content":"x"}}],"usage":{"total_tokens":"many"}}"#;
    let ev = LLMProvider::DeepSeek.classify_response(200, body.to_string());
    match ev {
        AttemptEvent::BodyReceived(text, tokens) => {
            assert_eq!(text.as_deref(), Some("x"));
            assert_eq!(tokens, None);
        }
        _ => panic!("expected a parsed body"),
    }
}

#[test]
fn auth_header_is_prefixed_exactly_once() {
    assert_eq!(build_auth_header("sk-123"), "Bearer sk-123");
    assert_eq!(build_auth_header("Bearer sk-123"), "Bearer sk-123");
    assert_eq!(build_auth_header("Bearer Bearer sk-123"), "Bearer sk-123");
    assert_eq!(build_auth_header("sk-123  "), "Bearer sk-123");
    assert_eq!(build_auth_header("Bearer sk-123\n"), "Bearer sk-123");
    assert_eq!(build_auth_header(""), "Bearer ");
}
