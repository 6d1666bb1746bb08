use one_balance::cache::{get_healthy_sorted_keys_via_cache, HealthCache, DEFAULT_CACHE_TTL_SECS};
use one_balance::guard::{flag_key_with_cooldown, CooldownGuard};
use one_balance::queue::StateUpdate;
use one_balance::record::{ApiKey, ApiKeyStatus, ModelCooling};
use one_balance::scorer::{get_healthy_sorted_keys, health_score, is_selectable};
use one_balance::store::{apply_to_key, KeyStore};

const NOW: u64 = 1_000_000;

fn key_with(id: &str, failures: u64, latency: u64, success_permille: u64) -> ApiKey {
    let mut k = ApiKey::new(id, &format!("secret-{}", id), "test-provider", 0);
    k.consecutive_failures = failures;
    k.latency_ms = latency;
    k.success_permille = success_permille;
    k
}

fn ids(keys: &[ApiKey]) -> Vec<String> {
    keys.iter().map(|k| k.id.clone()).collect()
}

fn named_key(key_name: &str, failures: u64, latency: u64, success_permille: u64) -> ApiKey {
    let mut k = ApiKey::new(&format!("id-{}", key_name), key_name, "test-provider", 0);
    k.consecutive_failures = failures;
    k.latency_ms = latency;
    k.success_permille = success_permille;
    k
}

#[test]
fn test_health_based_routing_and_circuit_breaker() {
    let mut store = KeyStore::new();
    store.insert(named_key("key-1-healthy", 0, 100, 1000));
    store.insert(named_key("key-2-unhealthy", 6, 500, 200));
    store.insert(named_key("key-3-slower", 1, 500, 900));
    let mut blocked = named_key("key-4-blocked", 0, 100, 1000);
    blocked.status = ApiKeyStatus::Blocked;
    store.insert(blocked);

    let mut cache = HealthCache::new(DEFAULT_CACHE_TTL_SECS);
    let guard = CooldownGuard::new();
    let sorted_keys = get_healthy_sorted_keys_via_cache(&mut cache, &store, &guard, "test-provider", NOW);

    assert_eq!(sorted_keys.len(), 2);
    assert_eq!(sorted_keys[0].key, "key-1-healthy");
    assert_eq!(sorted_keys[1].key, "key-3-slower");
}

#[test]
fn ranking_orders_by_health_and_breaks_circuit() {
    let keys = vec![
        key_with("K1", 0, 100, 1000),
        key_with("K2", 6, 500, 200),
        key_with("K3", 1, 500, 900),
    ];
    let ranked = get_healthy_sorted_keys(keys, NOW);
    assert_eq!(ids(&ranked), vec!["K1".to_string(), "K3".to_string()]);
}

#[test]
fn score_formula_exact_values() {
    let k1 = key_with("K1", 0, 100, 1000);
    assert_eq!(health_score(&k1, NOW), 10900);
    let k3 = key_with("K3", 1, 500, 900);
    assert_eq!(health_score(&k3, NOW), 10350);
    let mut recent = key_with("R", 0, 0, 0);
    recent.last_succeeded_at = NOW - 299;
    assert_eq!(health_score(&recent, NOW), 10010);
    recent.last_succeeded_at = NOW - 300;
    assert_eq!(health_score(&recent, NOW), 10000);
    let slow = key_with("S", 3, 20_000, 0);
    assert_eq!(health_score(&slow, NOW), -10150);
}

#[test]
fn score_is_monotone_in_each_field() {
    let base = key_with("B", 1, 300, 800);
    let slower = key_with("B", 1, 301, 800);
    let failing = key_with("B", 2, 300, 800);
    let better = key_with("B", 1, 300, 801);
    assert!(health_score(&slower, NOW) < health_score(&base, NOW));
    assert!(health_score(&failing, NOW) < health_score(&base, NOW));
    assert!(health_score(&better, NOW) > health_score(&base, NOW));
}

#[test]
fn circuit_breaker_threshold_is_five() {
    assert!(is_selectable(&key_with("A", 4, 0, 0)));
    assert!(!is_selectable(&key_with("A", 5, 0, 0)));
    let ranked = get_healthy_sorted_keys(vec![key_with("A", 5, 0, 1000), key_with("B", 7, 0, 1000)], NOW);
    assert!(ranked.is_empty());
}

#[test]
fn ranking_keeps_given_order_for_equal_scores() {
    let keys = vec![key_with("first", 0, 100, 500), key_with("second", 0, 100, 500), key_with("top", 0, 50, 500)];
    let ranked = get_healthy_sorted_keys(keys, NOW);
    assert_eq!(ids(&ranked), vec!["top".to_string(), "first".to_string(), "second".to_string()]);
}

#[test]
fn ranking_of_empty_list_is_empty() {
    assert!(get_healthy_sorted_keys(Vec::new(), NOW).is_empty());
}

#[test]
fn guard_window_is_half_open() {
    let mut guard = CooldownGuard::new();
    assert!(!guard.is_cooling("k", NOW));
    flag_key_with_cooldown(&mut guard, "k", 15, NOW);
    assert!(guard.is_cooling("k", NOW));
    assert!(guard.is_cooling("k", NOW + 14));
    assert!(!guard.is_cooling("k", NOW + 15));
    assert!(!guard.is_cooling("other", NOW));
}

#[test]
fn guard_reflag_replaces_earlier_veto() {
    let mut guard = CooldownGuard::new();
    guard.flag("k", 100, NOW);
    guard.flag("k", 5, NOW);
    assert!(!guard.is_cooling("k", NOW + 5));
    guard.flag("j", 0, NOW);
    assert!(!guard.is_cooling("j", NOW));
}

#[test]
fn cache_serves_fresh_entry_and_refreshes_when_dirty_or_old() {
    let mut store = KeyStore::new();
    store.insert(key_with("a", 0, 100, 1000));
    let mut cache = HealthCache::new(60);
    let guard = CooldownGuard::new();
    let first = get_healthy_sorted_keys_via_cache(&mut cache, &store, &guard, "test-provider", NOW);
    assert_eq!(ids(&first), vec!["a".to_string()]);

    store.insert(key_with("b", 0, 50, 1000));
    let hit = get_healthy_sorted_keys_via_cache(&mut cache, &store, &guard, "test-provider", NOW + 59);
    assert_eq!(ids(&hit), vec!["a".to_string()]);

    let stale = get_healthy_sorted_keys_via_cache(&mut cache, &store, &guard, "test-provider", NOW + 60);
    assert_eq!(ids(&stale), vec!["b".to_string(), "a".to_string()]);

    store.insert(key_with("c", 0, 10, 1000));
    cache.invalidate("test-provider");
    let dirty = get_healthy_sorted_keys_via_cache(&mut cache, &store, &guard, "test-provider", NOW + 61);
    assert_eq!(ids(&dirty), vec!["c".to_string(), "b".to_string(), "a".to_string()]);
}

#[test]
fn cache_hit_still_applies_guard() {
    let mut store = KeyStore::new();
    store.insert(key_with("a", 0, 100, 1000));
    store.insert(key_with("b", 0, 200, 1000));
    let mut cache = HealthCache::new(60);
    let mut guard = CooldownGuard::new();
    let _ = get_healthy_sorted_keys_via_cache(&mut cache, &store, &guard, "test-provider", NOW);
    guard.flag("a", 30, NOW);
    let usable = get_healthy_sorted_keys_via_cache(&mut cache, &store, &guard, "test-provider", NOW + 1);
    assert_eq!(ids(&usable), vec!["b".to_string()]);
}

#[test]
fn store_lists_active_keys_of_provider_only() {
    let mut store = KeyStore::new();
    store.insert(key_with("a", 0, 100, 1000));
    let mut other = key_with("o", 0, 100, 1000);
    other.provider = "another".to_string();
    store.insert(other);
    store.set_status("a", ApiKeyStatus::Blocked, NOW);
    store.insert(key_with("c", 9, 100, 1000));
    let listed = store.list_candidates("test-provider");
    assert_eq!(ids(&listed), vec!["c".to_string()]);
    assert_eq!(store.get("a").map(|k| k.status), Some(ApiKeyStatus::Blocked));
    assert!(store.get("missing").is_none());
}

#[test]
fn metrics_update_success_and_failure_values() {
    let k = key_with("a", 3, 100, 500);
    let ok = apply_to_key(k, &StateUpdate::UpdateMetrics { update_id: 1, key_id: "a".to_string(), is_success: true, latency: 42 }, NOW);
    assert_eq!(ok.consecutive_failures, 0);
    assert_eq!(ok.success_permille, 505);
    assert_eq!(ok.latency_ms, 42);
    assert_eq!(ok.last_succeeded_at, NOW);
    assert_eq!(ok.last_checked_at, NOW);

    let bad = apply_to_key(ok, &StateUpdate::UpdateMetrics { update_id: 2, key_id: "a".to_string(), is_success: false, latency: 7 }, NOW + 1);
    assert_eq!(bad.consecutive_failures, 1);
    assert_eq!(bad.success_permille, 499);
    assert_eq!(bad.latency_ms, 7);
    assert_eq!(bad.last_succeeded_at, NOW);
    assert_eq!(bad.last_checked_at, NOW + 1);

    let other = apply_to_key(bad, &StateUpdate::UpdateMetrics { update_id: 3, key_id: "z".to_string(), is_success: true, latency: 1 }, NOW + 2);
    assert_eq!(other.consecutive_failures, 1);
}

#[test]
fn cooldown_update_records_model_end_and_totals() {
    let k = key_with("a", 0, 100, 1000);
    let cooldown = |update_id: u64| StateUpdate::SetCooldown {
        update_id,
        key_id: "a".to_string(),
        model: "gemini".to_string(),
        duration_secs: 15,
    };
    let once = apply_to_key(k, &cooldown(1), NOW);
    assert_eq!(once.get_cooldown_end("gemini"), Some(NOW + 15));
    assert_eq!(once.get_cooldown_end("other"), None);
    assert_eq!(once.total_cooling_seconds, 15);
    assert!(once.is_cooling_for_model("gemini", NOW + 14));
    assert!(!once.is_cooling_for_model("gemini", NOW + 15));
    // Still cooling: a second update changes nothing.
    let again = apply_to_key(once, &cooldown(2), NOW + 1);
    assert_eq!(again.total_cooling_seconds, 15);
    assert_eq!(again.get_cooldown_end("gemini"), Some(NOW + 15));
    // After expiry the entry is replaced and the totals grow.
    let later = apply_to_key(again, &cooldown(3), NOW + 100);
    assert_eq!(later.get_cooldown_end("gemini"), Some(NOW + 115));
    assert_eq!(later.total_cooling_seconds, 30);
    assert_eq!(later.model_coolings.len(), 1);
    assert_eq!(later.model_coolings[0].total_seconds, 30);
}

#[test]
fn expired_model_cooldown_leaves_key_usable() {
    let mut k = key_with("a", 0, 100, 1000);
    k.model_coolings.push(ModelCooling { model: "m".to_string(), total_seconds: 10, end_at: NOW - 1 });
    assert!(!k.is_cooling_for_model("m", NOW));
    assert_eq!(k.get_cooldown_end("m"), Some(NOW - 1));
}

#[test]
fn redelivered_updates_change_nothing() {
    let updates = vec![
        StateUpdate::SetStatus { update_id: 1, key_id: "a".to_string(), status: ApiKeyStatus::Blocked },
        StateUpdate::UpdateMetrics { update_id: 2, key_id: "a".to_string(), is_success: true, latency: 80 },
        StateUpdate::UpdateMetrics { update_id: 3, key_id: "a".to_string(), is_success: false, latency: 90 },
        StateUpdate::UpdateMetrics { update_id: 4, key_id: "a".to_string(), is_success: false, latency: 95 },
        StateUpdate::SetCooldown { update_id: 5, key_id: "a".to_string(), model: "m".to_string(), duration_secs: 0 },
    ];
    let mut once = KeyStore::new();
    once.insert(key_with("a", 2, 100, 500));
    let mut twice = KeyStore::new();
    twice.insert(key_with("a", 2, 100, 500));
    for u in &updates {
        once.apply_update(u, NOW);
        twice.apply_update(u, NOW);
        twice.apply_update(u, NOW + 7);
    }
    let a = once.get("a").unwrap();
    let b = twice.get("a").unwrap();
    assert_eq!(a.consecutive_failures, 2);
    assert_eq!(b.consecutive_failures, 2);
    assert_eq!(a.status, b.status);
    assert_eq!(a.success_permille, b.success_permille);
    assert_eq!(a.latency_ms, b.latency_ms);
    assert_eq!(a.last_checked_at, b.last_checked_at);
    assert_eq!(a.updated_at, b.updated_at);
    assert_eq!(a.total_cooling_seconds, b.total_cooling_seconds);
    assert_eq!(a.model_coolings.len(), b.model_coolings.len());
    assert_eq!(a.applied_updates, b.applied_updates);
    assert_eq!(a.applied_updates, vec![1, 2, 3, 4, 5]);
}

#[test]
fn a_redelivered_failure_counts_once() {
    let mut store = KeyStore::new();
    store.insert(key_with("a", 0, 100, 1000));
    let failure = StateUpdate::UpdateMetrics { update_id: 9, key_id: "a".to_string(), is_success: false, latency: 10 };
    store.apply_update(&failure, NOW);
    store.apply_update(&failure, NOW + 1);
    let a = store.get("a").unwrap();
    assert_eq!(a.consecutive_failures, 1);
    assert_eq!(a.success_permille, 990);
    assert_eq!(a.last_checked_at, NOW);
}

#[test]
fn store_refuses_taken_ids_and_doubled_models() {
    let mut store = KeyStore::new();
    assert!(store.insert(key_with("a", 0, 100, 1000)));
    assert!(!store.insert(key_with("a", 0, 50, 1000)));
    let mut doubled = key_with("b", 0, 100, 1000);
    doubled.model_coolings.push(ModelCooling { model: "m".to_string(), total_seconds: 1, end_at: 1 });
    doubled.model_coolings.push(ModelCooling { model: "m".to_string(), total_seconds: 2, end_at: 2 });
    assert!(!store.insert(doubled));
    assert_eq!(store.len(), 1);
    assert!(store.holds_id("a"));
    assert!(!store.holds_id("b"));
}

#[test]
fn empty_provider_has_no_candidates() {
    let mut store = KeyStore::new();
    let mut k = key_with("a", 0, 100, 1000);
    k.provider = String::new();
    store.insert(k);
    assert!(store.list_candidates("").is_empty());
    let mut cache = HealthCache::new(60);
    let guard = CooldownGuard::new();
    assert!(get_healthy_sorted_keys_via_cache(&mut cache, &store, &guard, "", NOW).is_empty());
}

#[test]
fn purge_drops_only_ended_vetoes() {
    let mut guard = CooldownGuard::new();
    guard.flag("ended", 10, NOW);
    guard.flag("running", 100, NOW);
    guard.purge_expired(NOW + 10);
    assert!(!guard.is_cooling("ended", NOW + 10));
    assert!(guard.is_cooling("running", NOW + 10));
    assert!(guard.is_cooling("running", NOW + 99));
    assert!(!guard.is_cooling("running", NOW + 100));
}

#[test]
fn state_updater_marks_cache_stale_on_status_change() {
    let mut store = KeyStore::new();
    store.insert(key_with("a", 0, 100, 1000));
    store.insert(key_with("b", 0, 200, 1000));
    assert_eq!(store.len(), 2);
    let mut cache = HealthCache::new(600);
    let guard = CooldownGuard::new();
    let first = get_healthy_sorted_keys_via_cache(&mut cache, &store, &guard, "test-provider", NOW);
    assert_eq!(ids(&first), vec!["a".to_string(), "b".to_string()]);

    let metrics = StateUpdate::UpdateMetrics { update_id: 1, key_id: "a".to_string(), is_success: false, latency: 5000 };
    one_balance::updater::apply_state_update(&mut store, &mut cache, &metrics, NOW + 1);
    let cached = get_healthy_sorted_keys_via_cache(&mut cache, &store, &guard, "test-provider", NOW + 2);
    assert_eq!(ids(&cached), vec!["a".to_string(), "b".to_string()]);

    let block = StateUpdate::SetStatus { update_id: 2, key_id: "a".to_string(), status: ApiKeyStatus::Blocked };
    one_balance::updater::apply_state_update(&mut store, &mut cache, &block, NOW + 3);
    let refreshed = get_healthy_sorted_keys_via_cache(&mut cache, &store, &guard, "test-provider", NOW + 4);
    assert_eq!(ids(&refreshed), vec!["b".to_string()]);
}
