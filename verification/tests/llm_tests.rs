use cortex_flow::llm::client::{attempt_step, exhausted_error, offline_reply, retry_delay_ms, AttemptOutcome, AttemptStep};
use cortex_flow::error::Error;
use cortex_flow::llm::{LLMProvider, LLMResponse, MockLLMClient, TokenUsage};

#[test]
fn test_token_usage() {
    let usage = TokenUsage::new(100, 50);
    assert_eq!(usage.prompt_tokens, 100);
    assert_eq!(usage.completion_tokens, 50);
    assert_eq!(usage.total_tokens, 150);
}

#[test]
fn test_llm_response() {
    let usage = TokenUsage::new(100, 50);
    let response = LLMResponse::new("Hello".to_string(), usage, "gpt-4");
    assert_eq!(response.content, "Hello");
    assert_eq!(response.model, "gpt-4");
    assert!(!response.is_empty());
}

#[test]
fn token_usage_add_sums_each_count() {
    let mut a = TokenUsage::new(10, 5);
    a.add(&TokenUsage::new(1, 2));
    assert_eq!(a, TokenUsage { prompt_tokens: 11, completion_tokens: 7, total_tokens: 18 });
}

#[test]
fn response_of_white_space_is_empty() {
    let r = LLMResponse::new(" \t\n\u{3000}".to_string(), TokenUsage::default(), "m");
    assert!(r.is_empty());
    let r = LLMResponse::new("".to_string(), TokenUsage::default(), "m");
    assert!(r.is_empty());
    let r = LLMResponse::new(" x ".to_string(), TokenUsage::default(), "m");
    assert!(!r.is_empty());
    assert_eq!(r.len(), 3);
    let r = LLMResponse::new("数据".to_string(), TokenUsage::default(), "m");
    assert_eq!(r.len(), 6);
}

#[test]
fn response_builders_keep_fields() {
    let r = LLMResponse::new("a".to_string(), TokenUsage::new(1, 1), "m")
        .with_finish_reason("stop")
        .with_metadata(serde_json::Value::Bool(true));
    assert_eq!(r.finish_reason.as_deref(), Some("stop"));
    assert_eq!(r.metadata, Some(serde_json::Value::Bool(true)));
    assert_eq!(r.usage.total_tokens, 2);
}

#[test]
fn mock_client_replies_or_fails() {
    let c = MockLLMClient::new("hi");
    let r = c.reply("mock-model").unwrap();
    assert_eq!(r.content, "hi");
    assert_eq!(r.model, "mock-model");
    assert_eq!(r.finish_reason.as_deref(), Some("stop"));
    assert_eq!(r.usage.total_tokens, 15);
    match MockLLMClient::failing().reply("x") {
        Err(Error::LLMCall(m)) => assert_eq!(m, "Mock LLM client error"),
        _ => panic!("expected an LLM error"),
    }
}

#[test]
fn provider_names() {
    assert_eq!(LLMProvider::OpenAI.as_str(), "openai");
    assert_eq!(LLMProvider::Custom.as_str(), "custom");
    assert_eq!(LLMProvider::default(), LLMProvider::OpenAI);
}

#[test]
fn attempt_steps_follow_outcomes() {
    assert!(matches!(attempt_step(0, 3, 60, AttemptOutcome::Answered), AttemptStep::Done));
    match attempt_step(1, 3, 60, AttemptOutcome::Failed(Error::Timeout("slow".to_string()))) {
        AttemptStep::Retry(Error::Timeout(m)) => assert_eq!(m, "slow"),
        _ => panic!("expected a retry"),
    }
    match attempt_step(3, 3, 60, AttemptOutcome::Failed(Error::LLMCall("down".to_string()))) {
        AttemptStep::GiveUp(Error::LLMCall(m)) => assert_eq!(m, "down"),
        _ => panic!("expected to give up"),
    }
    match attempt_step(0, 3, 60, AttemptOutcome::Failed(Error::Config("bad".to_string()))) {
        AttemptStep::GiveUp(Error::Config(_)) => {}
        _ => panic!("an unrecoverable error is not retried"),
    }
    match attempt_step(0, 2, 45, AttemptOutcome::TimedOut) {
        AttemptStep::Retry(Error::Timeout(m)) => assert_eq!(m, "LLM request timed out after 45s (attempt 1/3)"),
        _ => panic!("expected a retry"),
    }
    match attempt_step(2, 2, 45, AttemptOutcome::TimedOut) {
        AttemptStep::GiveUp(Error::Timeout(m)) => assert_eq!(m, "LLM request timed out after 45s (attempt 3/3)"),
        _ => panic!("expected to give up"),
    }
    assert_eq!(retry_delay_ms(0), 0);
    assert_eq!(retry_delay_ms(3), 1500);
    match exhausted_error(None) {
        Error::LLMCall(m) => assert_eq!(m, "All retries exhausted"),
        _ => panic!("expected an LLM error"),
    }
    assert!(matches!(exhausted_error(Some(Error::Internal("x".to_string()))), Error::Internal(_)));
}

#[test]
fn offline_reply_counts_quarter_lengths() {
    let r = offline_reply(&vec![40, 7, 3], "m1");
    assert_eq!(r.content, "[Mock] Response to 3 messages");
    assert_eq!(r.model, "m1");
    assert_eq!(r.usage, TokenUsage::new(11, 10));
    assert_eq!(r.finish_reason, Some("stop".to_string()));
}
