use workflow::config::Message;
use workflow::llm_retry::{
    completion_prompts, is_retryable, retry_step, timeout_error, AttemptOutcome, ErrorFacts, RetryStep,
    DEFAULT_MAX_RETRIES, DEFAULT_TIMEOUT_SECS,
};

fn msg(role: &str, content: &str) -> Message {
    Message { role: role.to_string(), content: content.to_string() }
}

#[test]
fn prompts_take_first_system_and_last_message() {
    let ms = vec![msg("user", "hello"), msg("system", "be brief"), msg("system", "second"), msg("user", "question")];
    assert_eq!(completion_prompts(&ms), Some(("be brief".to_string(), "question".to_string())));
    let ms = vec![msg("user", "only")];
    assert_eq!(completion_prompts(&ms), Some((String::new(), "only".to_string())));
    assert_eq!(completion_prompts(&[]), None);
}

#[test]
fn http_errors_by_kind_and_status() {
    let http = |timeout, connect, request, status| ErrorFacts::Http { timeout, connect, request, status };
    assert!(is_retryable(&http(true, false, false, Some(400))));
    assert!(is_retryable(&http(false, true, false, None)));
    assert!(is_retryable(&http(false, false, true, None)));
    assert!(is_retryable(&http(false, false, false, Some(503))));
    assert!(is_retryable(&http(false, false, false, Some(429))));
    assert!(!is_retryable(&http(false, false, false, Some(401))));
    assert!(!is_retryable(&http(false, false, false, Some(404))));
    assert!(is_retryable(&http(false, false, false, None)));
}

#[test]
fn other_errors_by_message() {
    let other = |m: &str| ErrorFacts::Other { message: m.to_string() };
    assert!(is_retryable(&other("Request TIMED OUT")));
    assert!(is_retryable(&other("429 Too Many Requests")));
    assert!(!is_retryable(&other("401 Unauthorized")));
    assert!(!is_retryable(&other("model not found")));
    assert!(!is_retryable(&other("Invalid API key")));
    // a transient part wins over a lasting one
    assert!(is_retryable(&other("invalid response: timeout")));
    assert!(is_retryable(&other("something odd happened")));
}

#[test]
fn backoff_doubles_until_the_last_attempt() {
    let fail = AttemptOutcome::Failed { retryable: true };
    assert_eq!(retry_step(0, 3, AttemptOutcome::Answered), RetryStep::Return);
    assert_eq!(retry_step(0, 3, fail), RetryStep::RetryAfter { backoff_secs: 1 });
    assert_eq!(retry_step(1, 3, AttemptOutcome::TimedOut), RetryStep::RetryAfter { backoff_secs: 2 });
    assert_eq!(retry_step(2, 3, fail), RetryStep::RetryAfter { backoff_secs: 4 });
    assert_eq!(retry_step(3, 3, fail), RetryStep::GiveUp);
    assert_eq!(retry_step(3, 3, AttemptOutcome::TimedOut), RetryStep::GiveUp);
    assert_eq!(retry_step(0, 3, AttemptOutcome::Failed { retryable: false }), RetryStep::GiveUp);
    assert_eq!(retry_step(63, 100, fail), RetryStep::RetryAfter { backoff_secs: 1u64 << 63 });
    assert_eq!(retry_step(200, 100, fail), RetryStep::GiveUp);
}

#[test]
fn timeout_error_names_the_attempt() {
    assert_eq!(timeout_error(60, 0, 3), "LLM request timed out after 60s (attempt 1/4)");
    assert_eq!((DEFAULT_TIMEOUT_SECS, DEFAULT_MAX_RETRIES), (60, 3));
}
