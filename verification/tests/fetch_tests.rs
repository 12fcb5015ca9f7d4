use trmnl_cyberpunk::data::Outcome;
use trmnl_cyberpunk::fetch::{is_not_configured, outcome_of, retry_step, total_attempts, FetchError, NotConfigured, RetryAction};

#[test]
fn not_configured_message() {
    assert_eq!(NotConfigured("PROMETHEUS_URL").message(), "PROMETHEUS_URL not configured");
    assert!(is_not_configured(&FetchError::NotConfigured(NotConfigured("ICS_URLS"))));
    assert!(!is_not_configured(&FetchError::Failed));
}

#[test]
fn outcomes_by_error_kind() {
    assert!(matches!(outcome_of::<u8>(Ok(3)), Outcome::Fetched(3)));
    assert!(matches!(outcome_of::<u8>(Err(FetchError::NotConfigured(NotConfigured("X")))), Outcome::NotConfigured));
    assert!(matches!(outcome_of::<u8>(Err(FetchError::Failed)), Outcome::Failed));
}

#[test]
fn retry_backoff_doubles() {
    let total = total_attempts(3);
    assert_eq!(total, 3);
    assert_eq!(total_attempts(0), 1);
    assert_eq!(retry_step(1, total, false), RetryAction::Retry(1));
    assert_eq!(retry_step(2, total, false), RetryAction::Retry(2));
    assert_eq!(retry_step(3, total, false), RetryAction::GiveUp);
    assert_eq!(retry_step(2, total, true), RetryAction::Done);
    assert_eq!(retry_step(5, 8, false), RetryAction::Retry(16));
}
