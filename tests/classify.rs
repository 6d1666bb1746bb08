use one_balance::classifier::{
    analyze_google_detail, analyze_google_error, analyze_provider_error, analyze_retry_delay, google_error_signal,
    key_is_invalid_from_error, message_signals_daily_quota, ErrorAnalysis,
};
use one_balance::models::{GoogleErrorBody, GoogleErrorDetail, GoogleErrorResponse, GoogleQuotaViolation};
use one_balance::retry::{decide_retry, decide_retry_before, random_jitter_ms, retry_delay_ms, RetryDecision, JITTER_MAX_MS};
use one_balance::text::{contains_text, parse_u64, trim_end_matches_char};

fn detail(type_url: &str, retry_delay: Option<&str>, reason: Option<&str>, quota_ids: &[&str]) -> GoogleErrorDetail {
    GoogleErrorDetail {
        type_url: type_url.to_string(),
        violations: quota_ids
            .iter()
            .map(|q| GoogleQuotaViolation {
                subject: String::new(),
                description: String::new(),
                quota_id: Some(q.to_string()),
            })
            .collect(),
        retry_delay: retry_delay.map(|s| s.to_string()),
        reason: reason.map(|s| s.to_string()),
    }
}

fn body(message: &str, details: Vec<GoogleErrorDetail>) -> GoogleErrorResponse {
    GoogleErrorResponse {
        error: GoogleErrorBody { code: 429, message: message.to_string(), status: String::new(), details },
    }
}

const RETRY: &str = "type.googleapis.com/google.rpc.RetryInfo";
const INFO: &str = "type.googleapis.com/google.rpc.ErrorInfo";
const QUOTA: &str = "type.googleapis.com/google.rpc.QuotaFailure";

#[test]
fn status_classes() {
    let empty = GoogleErrorResponse::empty();
    assert_eq!(analyze_provider_error("openai", 401, &empty), ErrorAnalysis::KeyIsInvalid);
    assert_eq!(analyze_provider_error("openai", 403, &empty), ErrorAnalysis::KeyIsInvalid);
    assert_eq!(analyze_provider_error("openai", 400, &empty), ErrorAnalysis::UserError);
    assert_eq!(analyze_provider_error("openai", 429, &empty), ErrorAnalysis::KeyOnCooldown { cooldown_seconds: 65 });
    assert_eq!(analyze_provider_error("openai", 500, &empty), ErrorAnalysis::TransientServerError);
    assert_eq!(analyze_provider_error("openai", 502, &empty), ErrorAnalysis::TransientServerError);
    assert_eq!(analyze_provider_error("openai", 503, &empty), ErrorAnalysis::TransientServerError);
    assert_eq!(analyze_provider_error("openai", 504, &empty), ErrorAnalysis::TransientServerError);
    assert_eq!(analyze_provider_error("openai", 404, &empty), ErrorAnalysis::Unknown);
    assert_eq!(analyze_provider_error("openai", 200, &empty), ErrorAnalysis::Unknown);
}

#[test]
fn google_bad_request_with_invalid_key_reason() {
    let b = body("API key not valid", vec![detail(INFO, None, Some("API_KEY_INVALID"), &[])]);
    assert!(key_is_invalid_from_error(&b));
    assert_eq!(analyze_provider_error("google-ai-studio", 400, &b), ErrorAnalysis::KeyIsInvalid);
    assert_eq!(analyze_provider_error("openai", 400, &b), ErrorAnalysis::UserError);
    let other = body("bad field", vec![detail(INFO, None, Some("FIELD_INVALID"), &[])]);
    assert!(!key_is_invalid_from_error(&other));
    assert_eq!(analyze_provider_error("google-ai-studio", 400, &other), ErrorAnalysis::UserError);
}

#[test]
fn google_retry_hint_adds_buffer() {
    let b = body("", vec![detail(RETRY, Some("10s"), None, &[])]);
    assert_eq!(analyze_google_error(&b), ErrorAnalysis::KeyOnCooldown { cooldown_seconds: 15 });
    assert_eq!(analyze_provider_error("google-ai-studio", 429, &b), ErrorAnalysis::KeyOnCooldown { cooldown_seconds: 15 });
    assert_eq!(analyze_provider_error("google-ai-studio", 503, &b), ErrorAnalysis::KeyOnCooldown { cooldown_seconds: 15 });
}

#[test]
fn retry_delay_reading() {
    assert_eq!(analyze_retry_delay("10s"), ErrorAnalysis::KeyOnCooldown { cooldown_seconds: 15 });
    assert_eq!(analyze_retry_delay("7"), ErrorAnalysis::KeyOnCooldown { cooldown_seconds: 12 });
    assert_eq!(analyze_retry_delay("3sss"), ErrorAnalysis::KeyOnCooldown { cooldown_seconds: 8 });
    assert_eq!(analyze_retry_delay("1.5s"), ErrorAnalysis::KeyOnCooldown { cooldown_seconds: 70 });
    assert_eq!(analyze_retry_delay("s"), ErrorAnalysis::KeyOnCooldown { cooldown_seconds: 70 });
    assert_eq!(
        analyze_retry_delay("18446744073709551615s"),
        ErrorAnalysis::KeyOnCooldown { cooldown_seconds: u64::MAX }
    );
}

#[test]
fn google_daily_quota_and_rate_limit_reasons() {
    let daily = body("", vec![detail(QUOTA, None, None, &["GenerateRequestsPerMinute", "GenerateRequestsPerDayPerProject"])]);
    assert_eq!(analyze_google_error(&daily), ErrorAnalysis::KeyOnCooldown { cooldown_seconds: 86400 });
    let minute = body("", vec![detail(QUOTA, None, None, &["GenerateRequestsPerMinute"])]);
    assert_eq!(analyze_google_error(&minute), ErrorAnalysis::KeyOnCooldown { cooldown_seconds: 65 });
    let rate = body("", vec![detail(INFO, None, Some("RATE_LIMIT_EXCEEDED"), &[])]);
    assert_eq!(analyze_google_error(&rate), ErrorAnalysis::KeyOnCooldown { cooldown_seconds: 65 });
    let invalid = body("", vec![detail(INFO, None, Some("API_KEY_INVALID"), &[])]);
    assert_eq!(analyze_google_error(&invalid), ErrorAnalysis::KeyIsInvalid);
}

#[test]
fn first_telling_detail_wins() {
    let b = body(
        "",
        vec![
            detail("type.googleapis.com/google.rpc.Help", None, None, &[]),
            detail(INFO, None, Some("OTHER"), &[]),
            detail(RETRY, Some("20s"), None, &[]),
            detail(INFO, None, Some("API_KEY_INVALID"), &[]),
        ],
    );
    assert_eq!(analyze_google_error(&b), ErrorAnalysis::KeyOnCooldown { cooldown_seconds: 25 });
    assert_eq!(analyze_google_detail(&b.error.details[0]), None);
}

#[test]
fn message_about_daily_quota_is_read_in_any_case() {
    let b = body("QUOTA exceeded for this DAY", vec![]);
    assert_eq!(google_error_signal(&b), Some(ErrorAnalysis::KeyOnCooldown { cooldown_seconds: 86400 }));
    assert_eq!(analyze_google_error(&b), ErrorAnalysis::KeyOnCooldown { cooldown_seconds: 86400 });
    let plain = body("Quota exceeded per minute", vec![]);
    assert_eq!(google_error_signal(&plain), None);
    assert_eq!(analyze_google_error(&plain), ErrorAnalysis::KeyOnCooldown { cooldown_seconds: 65 });
    assert_eq!(analyze_provider_error("google-ai-studio", 503, &plain), ErrorAnalysis::TransientServerError);
    assert!(message_signals_daily_quota("quota per day"));
    assert!(!message_signals_daily_quota("QUOTA PER DAY"));
}

#[test]
fn text_helpers() {
    assert!(contains_text("GenerateRequestsPerDay", "PerDay"));
    assert!(!contains_text("Per", "PerDay"));
    assert!(contains_text("abc", ""));
    assert_eq!(parse_u64("+42"), Some(42));
    assert_eq!(parse_u64(""), None);
    assert_eq!(parse_u64("+"), None);
    assert_eq!(parse_u64("18446744073709551616"), None);
    assert_eq!(parse_u64("12a"), None);
    assert_eq!(trim_end_matches_char("10sss", 's'), "10");
    assert_eq!(trim_end_matches_char("sss", 's'), "");
}

#[test]
fn backoff_delays() {
    assert_eq!(retry_delay_ms(2, 0), 400);
    assert_eq!(retry_delay_ms(3, 99), 899);
    assert_eq!(retry_delay_ms(2, 150), 450);
    assert_eq!(retry_delay_ms(0, 0), 100);
    assert_eq!(retry_delay_ms(60, 0), u64::MAX);
    assert_eq!(retry_delay_ms(57, 0), 100 * (1u64 << 57));
    assert_eq!(decide_retry(one_balance::classifier::ErrorAnalysis::TransientServerError, 1, 3, 5), RetryDecision::RetrySameKey { delay_ms: 405 });
    assert_eq!(decide_retry(one_balance::classifier::ErrorAnalysis::TransientServerError, 3, 3, 5), RetryDecision::Surrender);
    assert_eq!(decide_retry(one_balance::classifier::ErrorAnalysis::Unknown, 1, 3, 5), RetryDecision::Surrender);
    for _ in 0..20 {
        assert!(random_jitter_ms() < JITTER_MAX_MS);
    }
}

#[test]
fn retries_stop_at_the_deadline() {
    let t = ErrorAnalysis::TransientServerError;
    assert_eq!(decide_retry_before(t, 1, 3, 5, 1_000, 2_000), RetryDecision::RetrySameKey { delay_ms: 405 });
    assert_eq!(decide_retry_before(t, 1, 3, 5, 1_595, 2_000), RetryDecision::OutOfTime);
    assert_eq!(decide_retry_before(t, 1, 3, 5, 1_594, 2_000), RetryDecision::RetrySameKey { delay_ms: 405 });
    assert_eq!(decide_retry_before(t, 1, 3, 5, 3_000, 2_000), RetryDecision::OutOfTime);
    assert_eq!(decide_retry_before(t, 3, 3, 5, 3_000, 2_000), RetryDecision::Surrender);
    assert_eq!(decide_retry_before(ErrorAnalysis::UserError, 1, 3, 5, 0, 2_000), RetryDecision::Surrender);
    assert_eq!(decide_retry_before(t, 1, 3, 0, u64::MAX, u64::MAX), RetryDecision::OutOfTime);
}
