use one_balance::cache::{get_healthy_sorted_keys_via_cache, HealthCache};
use one_balance::classifier::{analyze_provider_error, ErrorAnalysis};
use one_balance::engine::{EngineAction, FailoverEngine};
use one_balance::guard::CooldownGuard;
use one_balance::models::{GoogleErrorBody, GoogleErrorDetail, GoogleErrorResponse};
use one_balance::queue::StateUpdate;
use one_balance::record::{ApiKey, ApiKeyStatus};
use one_balance::retry::{decide_retry_before, RetryDecision, MAX_ATTEMPTS};
use one_balance::store::KeyStore;

const NOW: u64 = 2_000_000;
const PROVIDER: &str = "google-ai-studio";

fn store_of(ids: &[&str]) -> KeyStore {
    let mut store = KeyStore::new();
    for (i, id) in ids.iter().enumerate() {
        let mut k = ApiKey::new(id, &format!("secret-{}", id), PROVIDER, 0);
        k.latency_ms = 100 * (i as u64 + 1);
        store.insert(k);
    }
    store
}

fn retry_info_body(delay: &str) -> GoogleErrorResponse {
    GoogleErrorResponse {
        error: GoogleErrorBody {
            code: 429,
            message: "Resource has been exhausted".to_string(),
            status: "RESOURCE_EXHAUSTED".to_string(),
            details: vec![GoogleErrorDetail {
                type_url: "type.googleapis.com/google.rpc.RetryInfo".to_string(),
                violations: vec![],
                retry_delay: Some(delay.to_string()),
                reason: None,
            }],
        },
    }
}

fn ranked(store: &KeyStore, cache: &mut HealthCache, guard: &CooldownGuard, now: u64) -> Vec<ApiKey> {
    get_healthy_sorted_keys_via_cache(cache, store, guard, PROVIDER, now)
}

#[test]
fn rate_limit_with_retry_hint_cools_key_and_fails_over() {
    let store = store_of(&["k1", "k2"]);
    let mut cache = HealthCache::new(60);
    let mut guard = CooldownGuard::new();
    let candidates = ranked(&store, &mut cache, &guard, NOW);
    let mut engine = FailoverEngine::new(candidates, PROVIDER, "gemini-pro", NOW + 25);

    assert_eq!(engine.next_action(&guard, NOW), EngineAction::Attempt { index: 0 });
    let analysis = analyze_provider_error(PROVIDER, 429, &retry_info_body("10s"));
    assert_eq!(analysis, ErrorAnalysis::KeyOnCooldown { cooldown_seconds: 15 });

    let step = engine.on_failure(0, analysis, 429, 30, &mut guard, &mut cache, NOW, 1);
    assert!(step.reply.is_none());
    match step.update {
        Some(StateUpdate::SetCooldown { key_id, model, duration_secs, .. }) => {
            assert_eq!(key_id, "k1");
            assert_eq!(model, "gemini-pro");
            assert_eq!(duration_secs, 15);
        }
        other => panic!("unexpected update {:?}", other),
    }
    assert!(guard.is_cooling("k1", NOW));
    assert!(guard.is_cooling("k1", NOW + 14));
    assert!(!guard.is_cooling("k1", NOW + 15));

    assert_eq!(engine.next_action(&guard, NOW), EngineAction::Attempt { index: 1 });
    assert_eq!(engine.candidate(1).id, "k2");
    let fresh = ranked(&store, &mut cache, &guard, NOW + 1);
    assert_eq!(fresh.iter().map(|k| k.id.clone()).collect::<Vec<_>>(), vec!["k2".to_string()]);
}

#[test]
fn invalid_key_is_blocked_and_left_out_of_next_refresh() {
    let mut store = store_of(&["k1", "k2"]);
    let mut cache = HealthCache::new(60);
    let mut guard = CooldownGuard::new();
    let candidates = ranked(&store, &mut cache, &guard, NOW);
    let mut engine = FailoverEngine::new(candidates, PROVIDER, "gemini-pro", NOW + 25);
    assert_eq!(engine.next_action(&guard, NOW), EngineAction::Attempt { index: 0 });

    let analysis = analyze_provider_error(PROVIDER, 401, &GoogleErrorResponse::empty());
    assert_eq!(analysis, ErrorAnalysis::KeyIsInvalid);
    let step = engine.on_failure(0, analysis, 401, 30, &mut guard, &mut cache, NOW, 1);
    assert!(step.reply.is_none());
    let update = step.update.expect("an update is queued");
    match &update {
        StateUpdate::SetStatus { key_id, status, .. } => {
            assert_eq!(key_id, "k1");
            assert_eq!(*status, ApiKeyStatus::Blocked);
        }
        other => panic!("unexpected update {:?}", other),
    }
    assert!(!guard.is_cooling("k1", NOW));

    store.apply_update(&update, NOW);
    let refreshed = ranked(&store, &mut cache, &guard, NOW + 1);
    assert_eq!(refreshed.iter().map(|k| k.id.clone()).collect::<Vec<_>>(), vec!["k2".to_string()]);
}

#[test]
fn transient_errors_exhaust_retries_then_fail_over() {
    let store = store_of(&["k1", "k2"]);
    let mut cache = HealthCache::new(60);
    let mut guard = CooldownGuard::new();
    let candidates = ranked(&store, &mut cache, &guard, NOW);
    let mut engine = FailoverEngine::new(candidates, PROVIDER, "gemini-pro", NOW + 25);
    assert_eq!(engine.next_action(&guard, NOW), EngineAction::Attempt { index: 0 });

    let mut delays = Vec::new();
    let mut attempt: u32 = 1;
    let last = loop {
        let analysis = analyze_provider_error(PROVIDER, 502, &GoogleErrorResponse::empty());
        assert_eq!(analysis, ErrorAnalysis::TransientServerError);
        match decide_retry_before(analysis, attempt, MAX_ATTEMPTS, 7, NOW * 1000, (NOW + 25) * 1000) {
            RetryDecision::RetrySameKey { delay_ms } => {
                delays.push(delay_ms);
                attempt += 1;
            }
            RetryDecision::Surrender => break analysis,
            RetryDecision::OutOfTime => panic!("the budget allows these retries"),
        }
    };
    assert_eq!(attempt, 3);
    assert_eq!(delays, vec![407, 807]);

    let step = engine.on_failure(0, last, 502, 30, &mut guard, &mut cache, NOW, 1);
    assert!(step.reply.is_none());
    match step.update {
        Some(StateUpdate::UpdateMetrics { key_id, is_success, latency, .. }) => {
            assert_eq!(key_id, "k1");
            assert!(!is_success);
            assert_eq!(latency, 30);
        }
        other => panic!("unexpected update {:?}", other),
    }
    assert!(!guard.is_cooling("k1", NOW));
    assert_eq!(engine.next_action(&guard, NOW), EngineAction::Attempt { index: 1 });
}

#[test]
fn no_usable_candidate_ends_without_an_attempt() {
    let mut store = KeyStore::new();
    let mut blocked = ApiKey::new("blocked", "s1", PROVIDER, 0);
    blocked.status = ApiKeyStatus::Blocked;
    store.insert(blocked);
    let mut broken = ApiKey::new("broken", "s2", PROVIDER, 0);
    broken.consecutive_failures = 5;
    store.insert(broken);
    store.insert(ApiKey::new("vetoed", "s3", PROVIDER, 0));
    let mut model_cooling = ApiKey::new("cooling", "s4", PROVIDER, 0);
    model_cooling.model_coolings.push(one_balance::record::ModelCooling {
        model: "gemini-pro".to_string(),
        total_seconds: 60,
        end_at: NOW + 60,
    });
    store.insert(model_cooling);

    let mut cache = HealthCache::new(60);
    let mut guard = CooldownGuard::new();
    guard.flag("vetoed", 30, NOW);
    let candidates = ranked(&store, &mut cache, &guard, NOW);
    assert_eq!(candidates.len(), 1);
    let mut engine = FailoverEngine::new(candidates, PROVIDER, "gemini-pro", NOW + 25);
    assert_eq!(engine.next_action(&guard, NOW), EngineAction::ReturnNoKeysAvailable);

    let mut empty = FailoverEngine::new(Vec::new(), PROVIDER, "gemini-pro", NOW + 25);
    assert_eq!(empty.next_action(&guard, NOW), EngineAction::ReturnNoKeysAvailable);
}

#[test]
fn success_returns_at_once_and_records_metrics() {
    let store = store_of(&["k1", "k2"]);
    let mut cache = HealthCache::new(60);
    let guard = CooldownGuard::new();
    let candidates = ranked(&store, &mut cache, &guard, NOW);
    let mut engine = FailoverEngine::new(candidates, PROVIDER, "m", NOW + 25);
    assert_eq!(engine.next_action(&guard, NOW), EngineAction::Attempt { index: 0 });
    let (action, update) = engine.on_success(0, 120, 7);
    assert_eq!(action, EngineAction::ReturnSuccess);
    assert_eq!(update.update_id(), 7);
    match update {
        StateUpdate::UpdateMetrics { key_id, is_success, latency, .. } => {
            assert_eq!(key_id, "k1");
            assert!(is_success);
            assert_eq!(latency, 120);
        }
        other => panic!("unexpected update {:?}", other),
    }
}

#[test]
fn user_error_returns_upstream_error_without_touching_key() {
    let store = store_of(&["k1", "k2"]);
    let mut cache = HealthCache::new(60);
    let mut guard = CooldownGuard::new();
    let candidates = ranked(&store, &mut cache, &guard, NOW);
    let mut engine = FailoverEngine::new(candidates, "openai", "m", NOW + 25);
    assert_eq!(engine.next_action(&guard, NOW), EngineAction::Attempt { index: 0 });
    let analysis = analyze_provider_error("openai", 400, &GoogleErrorResponse::empty());
    assert_eq!(analysis, ErrorAnalysis::UserError);
    let step = engine.on_failure(0, analysis, 400, 5, &mut guard, &mut cache, NOW, 1);
    assert_eq!(step.reply, Some(EngineAction::ReturnUpstreamError { status: 400 }));
    assert!(step.update.is_none());
}

#[test]
fn exhaustion_after_rate_limit_surfaces_upstream_error() {
    let store = store_of(&["k1"]);
    let mut cache = HealthCache::new(60);
    let mut guard = CooldownGuard::new();
    let candidates = ranked(&store, &mut cache, &guard, NOW);
    let mut engine = FailoverEngine::new(candidates, "openai", "m", NOW + 25);
    assert_eq!(engine.next_action(&guard, NOW), EngineAction::Attempt { index: 0 });
    let analysis = analyze_provider_error("openai", 429, &GoogleErrorResponse::empty());
    assert_eq!(analysis, ErrorAnalysis::KeyOnCooldown { cooldown_seconds: 65 });
    let _ = engine.on_failure(0, analysis, 429, 5, &mut guard, &mut cache, NOW, 1);
    assert_eq!(engine.next_action(&guard, NOW), EngineAction::ReturnUpstreamError { status: 429 });
}

#[test]
fn exhaustion_after_other_failures_reports_all_keys_failed() {
    let store = store_of(&["k1"]);
    let mut cache = HealthCache::new(60);
    let mut guard = CooldownGuard::new();
    let candidates = ranked(&store, &mut cache, &guard, NOW);
    let mut engine = FailoverEngine::new(candidates, "openai", "m", NOW + 25);
    assert_eq!(engine.next_action(&guard, NOW), EngineAction::Attempt { index: 0 });
    let analysis = analyze_provider_error("openai", 418, &GoogleErrorResponse::empty());
    assert_eq!(analysis, ErrorAnalysis::Unknown);
    let _ = engine.on_failure(0, analysis, 418, 5, &mut guard, &mut cache, NOW, 1);
    assert_eq!(engine.next_action(&guard, NOW), EngineAction::ReturnAllKeysFailed);
}

#[test]
fn deadline_stops_new_attempts() {
    let store = store_of(&["k1", "k2"]);
    let mut cache = HealthCache::new(60);
    let guard = CooldownGuard::new();
    let candidates = ranked(&store, &mut cache, &guard, NOW);
    let mut engine = FailoverEngine::new(candidates, PROVIDER, "m", NOW + 25);
    assert_eq!(engine.next_action(&guard, NOW + 25), EngineAction::ReturnTimeout);
    assert_eq!(engine.next_action(&guard, NOW + 24), EngineAction::Attempt { index: 0 });
}
