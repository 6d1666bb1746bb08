use one_balance::cache::{get_healthy_sorted_keys_via_cache, HealthCache};
use one_balance::guard::CooldownGuard;
use one_balance::intake::{parse_key_list, trim_text};
use one_balance::record::{ApiKey, ApiKeyStatus};
use one_balance::store::KeyStore;
use one_balance::updater::add_keys;

#[test]
fn key_list_splits_trims_and_dedups() {
    assert_eq!(
        parse_key_list(" k1 ,k2\n\n k1\t,k3 ,, "),
        vec!["k1".to_string(), "k2".to_string(), "k3".to_string()]
    );
    assert!(parse_key_list("").is_empty());
    assert!(parse_key_list(" , \n ").is_empty());
    assert_eq!(parse_key_list("a b"), vec!["a b".to_string()]);
    assert_eq!(parse_key_list("x\r\ny"), vec!["x".to_string(), "y".to_string()]);
}

#[test]
fn trimming_follows_unicode_blanks() {
    assert_eq!(trim_text("\u{3000} key\u{a0}\n"), "key");
    assert_eq!(trim_text("   "), "");
    assert_eq!(trim_text("a"), "a");
}

#[test]
fn add_keys_skips_held_keys_and_refreshes_cache() {
    let mut store = KeyStore::new();
    store.insert(ApiKey::new("old", "k1", "p", 0));
    let mut other = ApiKey::new("other", "k2", "q", 0);
    other.status = ApiKeyStatus::Blocked;
    store.insert(other);
    let mut cache = HealthCache::new(600);
    let guard = CooldownGuard::new();
    let before = get_healthy_sorted_keys_via_cache(&mut cache, &store, &guard, "p", 100);
    assert_eq!(before.len(), 1);

    let added = add_keys(&mut store, &mut cache, "p", "k1\nk2, k3\nk2", 200);
    assert_eq!(added, Ok(2));
    assert_eq!(store.len(), 4);
    let listed = store.list_candidates("p");
    let secrets: Vec<String> = listed.iter().map(|k| k.key.clone()).collect();
    assert_eq!(secrets, vec!["k1".to_string(), "k2".to_string(), "k3".to_string()]);
    let new_key = &listed[1];
    assert_eq!(new_key.status, ApiKeyStatus::Active);
    assert_eq!(new_key.created_at, 200);
    assert_eq!(new_key.success_permille, 1000);
    assert_eq!(new_key.id.len(), 36);
    assert_ne!(listed[1].id, listed[2].id);

    let after = get_healthy_sorted_keys_via_cache(&mut cache, &store, &guard, "p", 201);
    assert_eq!(after.len(), 3);
    assert_eq!(add_keys(&mut store, &mut cache, "p", "k3", 300), Ok(0));
}
