//! The error classifier: turns an upstream status and error body into the
//! outcome that decides what happens to the key.

use vstd::prelude::*;
use crate::models::{GoogleErrorDetail, GoogleErrorResponse, GoogleQuotaViolation};
use crate::record::same_text;
use crate::text::{contains_text, decimal_u64, has_substring, parse_u64, trim_end_char, trim_end_matches_char};

verus! {

/// Cooldown when the provider gives no usable hint.
pub const DEFAULT_COOLDOWN_SECONDS: u64 = 65;

/// Cooldown when the provider reports that a daily quota is spent.
pub const DAILY_COOLDOWN_SECONDS: u64 = 86400;

/// Added to a delay that the provider suggests.
pub const RETRY_DELAY_BUFFER_SECONDS: u64 = 5;

/// The outcome of one failed attempt.
#[derive(Clone, Copy, Debug, PartialEq, Eq, Structural)]
pub enum ErrorAnalysis {
    /// The key is invalid and must be disabled.
    KeyIsInvalid,
    /// The key is rate-limited for this long.
    KeyOnCooldown { cooldown_seconds: u64 },
    /// The caller's request is at fault; the key is fine.
    UserError,
    /// A passing failure of the provider; worth a retry on the same key.
    TransientServerError,
    /// The request ran out of time.
    RequestTimeout,
    /// Not recognised.
    Unknown,
}

/// The name of the provider whose error bodies are inspected.
pub open spec fn is_google(provider: Seq<char>) -> bool {
    provider == "google-ai-studio"@
}

/// A suggested delay of `secs` seconds plus the buffer, capped at the
/// largest `u64`.
pub open spec fn buffered(secs: int) -> u64 {
    if secs + 5 > u64::MAX {
        u64::MAX
    } else {
        (secs + 5) as u64
    }
}

/// What a `RetryInfo` delay such as `"10s"` gives: the number without its
/// trailing `s`s, plus the buffer; a delay that cannot be read counts as
/// the default.
pub open spec fn retry_delay_outcome(delay: Seq<char>) -> ErrorAnalysis {
    let secs: int = match decimal_u64(trim_end_char(delay, 's')) {
        Some(v) => v as int,
        None => 65,
    };
    ErrorAnalysis::KeyOnCooldown { cooldown_seconds: buffered(secs) }
}

/// A quota violation whose quota id names a daily quota.
pub open spec fn daily_quota_id(v: GoogleQuotaViolation) -> bool {
    match v.quota_id {
        Some(q) => has_substring(q@, "PerDay"@),
        None => false,
    }
}

/// An `ErrorInfo` detail with reason `API_KEY_INVALID`.
pub open spec fn invalid_key_detail(d: GoogleErrorDetail) -> bool {
    &&& d.type_url@ == "type.googleapis.com/google.rpc.ErrorInfo"@
    &&& match d.reason {
        Some(r) => r@ == "API_KEY_INVALID"@,
        None => false,
    }
}

/// Some quota violation names a daily quota.
pub open spec fn names_daily_quota(vs: Seq<GoogleQuotaViolation>) -> bool {
    exists|i: int|
        0 <= i < vs.len() && daily_quota_id(#[trigger] vs[i])
}

/// What one detail of a Google error says, if anything.
pub open spec fn detail_outcome(d: GoogleErrorDetail) -> Option<ErrorAnalysis> {
    if d.type_url@ == "type.googleapis.com/google.rpc.RetryInfo"@ {
        match d.retry_delay {
            Some(s) => Some(retry_delay_outcome(s@)),
            None => None,
        }
    } else if d.type_url@ == "type.googleapis.com/google.rpc.ErrorInfo"@ {
        match d.reason {
            Some(r) => if r@ == "API_KEY_INVALID"@ {
                Some(ErrorAnalysis::KeyIsInvalid)
            } else if r@ == "RATE_LIMIT_EXCEEDED"@ {
                Some(ErrorAnalysis::KeyOnCooldown { cooldown_seconds: 65 })
            } else {
                None
            },
            None => None,
        }
    } else if d.type_url@ == "type.googleapis.com/google.rpc.QuotaFailure"@ {
        if names_daily_quota(d.violations@) {
            Some(ErrorAnalysis::KeyOnCooldown { cooldown_seconds: 86400 })
        } else {
            None
        }
    } else {
        None
    }
}

/// What the first telling detail says.
pub open spec fn details_outcome(ds: Seq<GoogleErrorDetail>) -> Option<ErrorAnalysis>
    decreases ds.len(),
{
    if ds.len() == 0 {
        None
    } else {
        match detail_outcome(ds[0]) {
            Some(a) => Some(a),
            None => details_outcome(ds.drop_first()),
        }
    }
}

/// The lowercase form of a text, as `str::to_lowercase` gives it.
pub uninterp spec fn lower_of(s: Seq<char>) -> Seq<char>;

/// A lowercased message that speaks of a daily quota.
pub open spec fn says_daily_quota(lowered: Seq<char>) -> bool {
    has_substring(lowered, "quota"@) && has_substring(lowered, "day"@)
}

/// What a Google error body tells of the key, if anything: the first
/// telling detail, else a message that speaks of a daily quota.
pub open spec fn google_signal(body: GoogleErrorResponse) -> Option<ErrorAnalysis> {
    match details_outcome(body.error.details@) {
        Some(a) => Some(a),
        None => if says_daily_quota(lower_of(body.error.message@)) {
            Some(ErrorAnalysis::KeyOnCooldown { cooldown_seconds: 86400 })
        } else {
            None
        },
    }
}

/// The outcome of a Google rate-limit body: its signal, else the default
/// cooldown.
pub open spec fn google_outcome(body: GoogleErrorResponse) -> ErrorAnalysis {
    match google_signal(body) {
        Some(a) => a,
        None => ErrorAnalysis::KeyOnCooldown { cooldown_seconds: 65 },
    }
}

/// Some detail reports an invalid API key.
pub open spec fn reports_invalid_key(body: GoogleErrorResponse) -> bool {
    exists|i: int|
        0 <= i < body.error.details@.len() && invalid_key_detail(#[trigger] body.error.details@[i])
}

/// The outcome of a failed attempt with this provider, status and body.
pub open spec fn provider_outcome(provider: Seq<char>, status: u16, body: GoogleErrorResponse) -> ErrorAnalysis {
    if status == 401 || status == 403 {
        ErrorAnalysis::KeyIsInvalid
    } else if status == 400 {
        if is_google(provider) && reports_invalid_key(body) {
            ErrorAnalysis::KeyIsInvalid
        } else {
            ErrorAnalysis::UserError
        }
    } else if status == 429 {
        if is_google(provider) {
            google_outcome(body)
        } else {
            ErrorAnalysis::KeyOnCooldown { cooldown_seconds: 65 }
        }
    } else if status == 503 {
        if is_google(provider) {
            match google_signal(body) {
                Some(a) => a,
                None => ErrorAnalysis::TransientServerError,
            }
        } else {
            ErrorAnalysis::TransientServerError
        }
    } else if status == 500 || status == 502 || status == 504 {
        ErrorAnalysis::TransientServerError
    } else {
        ErrorAnalysis::Unknown
    }
}

/// Relies on `str::to_lowercase`: the lowercase form of a text depends on
/// its characters alone.
#[verifier::external_body]
fn lowercase(s: &str) -> (r: String)
    ensures
        r@ == lower_of(s@),
{
    s.to_lowercase()
}

/// Whether a lowercased message speaks of a daily quota.
pub fn message_signals_daily_quota(lowered: &str) -> (r: bool)
    ensures
        r == says_daily_quota(lowered@),
{
    contains_text(lowered, "quota") && contains_text(lowered, "day")
}

/// The outcome of a suggested retry delay such as `"10s"`.
pub fn analyze_retry_delay(delay: &str) -> (r: ErrorAnalysis)
    ensures
        r == retry_delay_outcome(delay@),
{
    let secs = match parse_u64(trim_end_matches_char(delay, 's')) {
        Some(v) => v,
        None => DEFAULT_COOLDOWN_SECONDS,
    };
    ErrorAnalysis::KeyOnCooldown { cooldown_seconds: secs.saturating_add(RETRY_DELAY_BUFFER_SECONDS) }
}

fn quota_violations_name_daily(vs: &Vec<GoogleQuotaViolation>) -> (r: bool)
    ensures
        r == names_daily_quota(vs@),
{
    let mut i: usize = 0;
    while i < vs.len()
        invariant
            i <= vs.len(),
            forall|j: int|
                0 <= j < i ==> !daily_quota_id(#[trigger] vs@[j]),
        decreases vs.len() - i,
    {
        if let Some(q) = &vs[i].quota_id {
            if contains_text(q.as_str(), "PerDay") {
                return true;
            }
        }
        i = i + 1;
    }
    false
}

/// What one detail of a Google error says, if anything.
pub fn analyze_google_detail(d: &GoogleErrorDetail) -> (r: Option<ErrorAnalysis>)
    ensures
        r == detail_outcome(*d),
{
    let t = d.type_url.as_str();
    if same_text(t, "type.googleapis.com/google.rpc.RetryInfo") {
        match &d.retry_delay {
            Some(s) => Some(analyze_retry_delay(s.as_str())),
            None => None,
        }
    } else if same_text(t, "type.googleapis.com/google.rpc.ErrorInfo") {
        match &d.reason {
            Some(reason) => if same_text(reason.as_str(), "API_KEY_INVALID") {
                Some(ErrorAnalysis::KeyIsInvalid)
            } else if same_text(reason.as_str(), "RATE_LIMIT_EXCEEDED") {
                Some(ErrorAnalysis::KeyOnCooldown { cooldown_seconds: DEFAULT_COOLDOWN_SECONDS })
            } else {
                None
            },
            None => None,
        }
    } else if same_text(t, "type.googleapis.com/google.rpc.QuotaFailure") {
        if quota_violations_name_daily(&d.violations) {
            Some(ErrorAnalysis::KeyOnCooldown { cooldown_seconds: DAILY_COOLDOWN_SECONDS })
        } else {
            None
        }
    } else {
        None
    }
}

/// What a Google error body tells of the key, if anything.
pub fn google_error_signal(error_body: &GoogleErrorResponse) -> (r: Option<ErrorAnalysis>)
    ensures
        r == google_signal(*error_body),
{
    let ds = &error_body.error.details;
    let mut i: usize = 0;
    assert(ds@.subrange(0, ds@.len() as int) == ds@);
    while i < ds.len()
        invariant
            i <= ds.len(),
            ds@ == error_body.error.details@,
            details_outcome(ds@) == details_outcome(ds@.subrange(i as int, ds@.len() as int)),
        decreases ds.len() - i,
    {
        assert(ds@.subrange(i as int, ds@.len() as int).drop_first() == ds@.subrange(i + 1, ds@.len() as int));
        assert(ds@.subrange(i as int, ds@.len() as int)[0] == ds@[i as int]);
        if let Some(a) = analyze_google_detail(&ds[i]) {
            return Some(a);
        }
        i = i + 1;
    }
    let lowered = lowercase(error_body.error.message.as_str());
    if message_signals_daily_quota(lowered.as_str()) {
        Some(ErrorAnalysis::KeyOnCooldown { cooldown_seconds: DAILY_COOLDOWN_SECONDS })
    } else {
        None
    }
}

/// Analyses a Google rate-limit error body: the first telling detail, else
/// a message about a daily quota, else the default cooldown.
pub fn analyze_google_error(error_body: &GoogleErrorResponse) -> (r: ErrorAnalysis)
    ensures
        r == google_outcome(*error_body),
{
    match google_error_signal(error_body) {
        Some(a) => a,
        None => ErrorAnalysis::KeyOnCooldown { cooldown_seconds: DEFAULT_COOLDOWN_SECONDS },
    }
}

/// Whether a Google 400 body says that the API key is invalid.
pub fn key_is_invalid_from_error(error_body: &GoogleErrorResponse) -> (r: bool)
    ensures
        r == reports_invalid_key(*error_body),
{
    let ds = &error_body.error.details;
    let mut i: usize = 0;
    while i < ds.len()
        invariant
            i <= ds.len(),
            ds@ == error_body.error.details@,
            forall|j: int|
                0 <= j < i ==> !invalid_key_detail(#[trigger] ds@[j]),
        decreases ds.len() - i,
    {
        if same_text(ds[i].type_url.as_str(), "type.googleapis.com/google.rpc.ErrorInfo") {
            if let Some(reason) = &ds[i].reason {
                if same_text(reason.as_str(), "API_KEY_INVALID") {
                    assert(invalid_key_detail(ds@[i as int]));
                    return true;
                }
            }
        }
        i = i + 1;
    }
    false
}

/// Classifies a failed upstream attempt by provider, HTTP status and the
/// error body (an empty body where it could not be read).
pub fn analyze_provider_error(provider: &str, status: u16, error_body: &GoogleErrorResponse) -> (r: ErrorAnalysis)
    ensures
        r == provider_outcome(provider@, status, *error_body),
{
    let google = same_text(provider, "google-ai-studio");
    if status == 401 || status == 403 {
        ErrorAnalysis::KeyIsInvalid
    } else if status == 400 {
        if google && key_is_invalid_from_error(error_body) {
            ErrorAnalysis::KeyIsInvalid
        } else {
            ErrorAnalysis::UserError
        }
    } else if status == 429 {
        if google {
            analyze_google_error(error_body)
        } else {
            ErrorAnalysis::KeyOnCooldown { cooldown_seconds: DEFAULT_COOLDOWN_SECONDS }
        }
    } else if status == 503 {
        if google {
            match google_error_signal(error_body) {
                Some(a) => a,
                None => ErrorAnalysis::TransientServerError,
            }
        } else {
            ErrorAnalysis::TransientServerError
        }
    } else if status == 500 || status == 502 || status == 504 {
        ErrorAnalysis::TransientServerError
    } else {
        ErrorAnalysis::Unknown
    }
}

} // verus!
