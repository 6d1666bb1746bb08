//! The state updater: applies queued updates to the key store, and keeps
//! the health cache honest about them.

use vstd::prelude::*;
use crate::cache::{CacheView, HealthCache};
use crate::queue::StateUpdate;
use crate::intake::{key_list, parse_key_list};
use crate::store::{apply_to_all, find_by_id, keys_to_add, new_key_view, KeyStore, StoreError};

verus! {

/// Applies one queued update to the store at `now`. A change of status or
/// of cooldown also marks stale the cached ranking of the key's provider,
/// so that the next read refreshes it; a metrics update leaves the cache
/// alone. Ids are unique in the store, so the one key of the update's id
/// is the only key it changes.
pub fn apply_state_update(store: &mut KeyStore, cache: &mut HealthCache, update: &StateUpdate, now: u64)
    requires
        old(store).wf(),
        old(cache).wf(),
    ensures
        final(store).wf(),
        final(store)@ == apply_to_all(old(store)@, *update, now),
        final(cache).wf(),
        final(cache).ttl() == old(cache).ttl(),
        match find_by_id(old(store)@, update.target()) {
            Some(k) if !(update is UpdateMetrics) => {
                &&& final(cache).entry(k.provider) == match old(cache).entry(k.provider) {
                    Some(e) => Some(CacheView { dirty: true, ..e }),
                    None => None,
                }
                &&& forall|p: Seq<char>| p != k.provider ==> #[trigger] final(cache).entry(p) == old(cache).entry(p)
            },
            _ => *final(cache) == *old(cache),
        },
{
    let changes_selection = match update {
        StateUpdate::UpdateMetrics { .. } => false,
        _ => true,
    };
    if changes_selection {
        if let Some(k) = store.get(update.key_id()) {
            cache.invalidate(k.provider.as_str());
        }
    }
    store.apply_update(update, now);
}

/// Adds the keys of a pasted list that `provider` does not hold yet, each
/// as a new active key with a fresh random id, and marks the provider's
/// cached ranking stale; the number added. Should a drawn id be taken
/// already, nothing changes.
pub fn add_keys(store: &mut KeyStore, cache: &mut HealthCache, provider: &str, keys_str: &str, now: u64) -> (r: Result<usize, StoreError>)
    requires
        old(store).wf(),
        old(cache).wf(),
    ensures
        final(store).wf(),
        final(cache).wf(),
        final(cache).ttl() == old(cache).ttl(),
        match r {
            Ok(added) => {
                let fresh = keys_to_add(old(store)@, provider@, key_list(keys_str@));
                &&& added == fresh.len()
                &&& final(store)@.len() == old(store)@.len() + fresh.len()
                &&& final(store)@.subrange(0, old(store)@.len() as int) == old(store)@
                &&& forall|j: int|
                    0 <= j < fresh.len() ==> #[trigger] final(store)@[old(store)@.len() + j] == new_key_view(
                        final(store)@[old(store)@.len() + j].id,
                        fresh[j],
                        provider@,
                        now,
                    )
                &&& final(cache).entry(provider@) == match old(cache).entry(provider@) {
                    Some(e) => Some(CacheView { dirty: true, ..e }),
                    None => None,
                }
                &&& forall|p: Seq<char>| p != provider@ ==> #[trigger] final(cache).entry(p) == old(cache).entry(p)
            },
            Err(e) => e == StoreError::DuplicateId && final(store)@ == old(store)@ && *final(cache) == *old(cache),
        },
{
    let keys = parse_key_list(keys_str);
    let added = store.insert_new_keys(provider, &keys, now);
    if added.is_ok() {
        cache.invalidate(provider);
    }
    added
}

} // verus!
