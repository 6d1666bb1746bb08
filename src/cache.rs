//! The health cache: per provider, the ranked candidate list, with the time
//! it was refreshed and a flag that marks it stale.

use vstd::prelude::*;
use crate::guard::CooldownGuard;
use crate::record::{lemma_filter_push, duplicate_keys, keys_view, same_text, ApiKey, KeyView};
use crate::scorer::{get_healthy_sorted_keys, ranks, selectable, selectable_keys, sorted_by_score};
use crate::store::{candidates_of, KeyStore};

verus! {

/// How long a ranked list is served before it is refreshed, in seconds.
pub const DEFAULT_CACHE_TTL_SECS: u64 = 60;

/// One provider's cached ranking.
#[derive(Debug)]
pub struct CacheEntry {
    pub provider: String,
    pub data: Vec<ApiKey>,
    pub refreshed_at: u64,
    pub dirty: bool,
}

/// What a cache entry holds, as plain values.
pub struct CacheView {
    pub data: Seq<KeyView>,
    pub refreshed_at: u64,
    pub dirty: bool,
}

/// The ranked candidate lists of the providers, each served until it is
/// older than the time-to-live or marked dirty.
#[derive(Debug)]
pub struct HealthCache {
    entries: Vec<CacheEntry>,
    ttl_secs: u64,
}

/// The first entry for `provider`.
pub open spec fn entry_in(entries: Seq<CacheEntry>, provider: Seq<char>) -> Option<CacheView>
    decreases entries.len(),
{
    if entries.len() == 0 {
        None
    } else if entries[0].provider@ == provider {
        Some(CacheView { data: keys_view(entries[0].data@), refreshed_at: entries[0].refreshed_at, dirty: entries[0].dirty })
    } else {
        entry_in(entries.drop_first(), provider)
    }
}

/// An entry may be served at `now`: it is clean and younger than `ttl`.
pub open spec fn is_fresh(e: CacheView, ttl: u64, now: u64) -> bool {
    !e.dirty && now.saturating_sub(e.refreshed_at) < ttl
}

/// Every key of every entry may be ranked.
pub open spec fn entries_selectable(entries: Seq<CacheEntry>) -> bool {
    forall|i: int, j: int|
        0 <= i < entries.len() && 0 <= j < entries[i].data@.len() ==> selectable(
            #[trigger] entries[i].data@[j]@,
        )
}

/// The keys of a ranking that the guard does not veto at `now`.
pub open spec fn not_vetoed(data: Seq<KeyView>, guard: CooldownGuard, now: u64) -> Seq<KeyView> {
    data.filter(|k: KeyView| !guard.cooling(k.id, now))
}

proof fn lemma_entry_in_push(s: Seq<CacheEntry>, e: CacheEntry, p: Seq<char>)
    ensures
        entry_in(s.push(e), p) == match entry_in(s, p) {
            Some(v) => Some(v),
            None => if e.provider@ == p {
                Some(CacheView { data: keys_view(e.data@), refreshed_at: e.refreshed_at, dirty: e.dirty })
            } else {
                None
            },
        },
    decreases s.len(),
{
    if s.len() > 0 {
        assert(s.push(e).drop_first() == s.drop_first().push(e));
        lemma_entry_in_push(s.drop_first(), e, p);
    } else {
        assert(s.push(e).drop_first() == s);
    }
}

proof fn lemma_entry_in_selectable(s: Seq<CacheEntry>, p: Seq<char>)
    requires
        entries_selectable(s),
    ensures
        entry_in(s, p) matches Some(v) ==> forall|j: int| 0 <= j < v.data.len() ==> selectable(#[trigger] v.data[j]),
    decreases s.len(),
{
    if s.len() > 0 && s[0].provider@ != p {
        assert forall|i: int, j: int|
            0 <= i < s.drop_first().len() && 0 <= j < s.drop_first()[i].data@.len() implies selectable(
            #[trigger] s.drop_first()[i].data@[j]@,
        ) by {
            assert(s.drop_first()[i] == s[i + 1]);
        }
        lemma_entry_in_selectable(s.drop_first(), p);
    } else if s.len() > 0 {
        assert forall|j: int| 0 <= j < keys_view(s[0].data@).len() implies selectable(
            #[trigger] keys_view(s[0].data@)[j],
        ) by {
            assert(selectable(s[0].data@[j]@));
        }
    }
}

impl HealthCache {
    /// The entry for `provider`, if any.
    pub closed spec fn entry(&self, provider: Seq<char>) -> Option<CacheView> {
        entry_in(self.entries@, provider)
    }

    /// The time-to-live of entries, in seconds.
    pub closed spec fn ttl(&self) -> u64 {
        self.ttl_secs
    }

    /// Every cached key may be ranked.
    pub closed spec fn wf(&self) -> bool {
        entries_selectable(self.entries@)
    }

    /// An empty cache whose entries live `ttl_secs` seconds.
    pub fn new(ttl_secs: u64) -> (r: HealthCache)
        ensures
            r.wf(),
            r.ttl() == ttl_secs,
            forall|p: Seq<char>| #[trigger] r.entry(p) is None,
    {
        HealthCache { entries: Vec::new(), ttl_secs }
    }

    /// Every key that the cache holds for `provider` may be ranked.
    pub proof fn lemma_entry_selectable(&self, provider: Seq<char>)
        requires
            self.wf(),
        ensures
            self.entry(provider) matches Some(v) ==> forall|j: int|
                0 <= j < v.data.len() ==> selectable(#[trigger] v.data[j]),
    {
        lemma_entry_in_selectable(self.entries@, provider);
    }

    /// The ranking cached for `provider`, when it may be served at `now`.
    pub fn lookup(&self, provider: &str, now: u64) -> (r: Option<Vec<ApiKey>>)
        ensures
            match self.entry(provider@) {
                Some(e) => if is_fresh(e, self.ttl(), now) {
                    r matches Some(d) && keys_view(d@) == e.data
                } else {
                    r is None
                },
                None => r is None,
            },
    {
        let ghost es = self.entries@;
        let mut i: usize = 0;
        assert(es.subrange(0, es.len() as int) == es);
        while i < self.entries.len()
            invariant
                i <= es.len(),
                es == self.entries@,
                entry_in(es, provider@) == entry_in(es.subrange(i as int, es.len() as int), provider@),
            decreases self.entries.len() - i,
        {
            assert(es.subrange(i as int, es.len() as int).drop_first() == es.subrange(i + 1, es.len() as int));
            let e = &self.entries[i];
            if same_text(e.provider.as_str(), provider) {
                if !e.dirty && now.saturating_sub(e.refreshed_at) < self.ttl_secs {
                    return Some(duplicate_keys(&e.data));
                }
                return None;
            }
            i = i + 1;
        }
        None
    }

    /// Marks the entry of `provider` stale, so that the next read refreshes it.
    pub fn invalidate(&mut self, provider: &str)
        requires
            old(self).wf(),
        ensures
            final(self).wf(),
            final(self).ttl() == old(self).ttl(),
            final(self).entry(provider@) == match old(self).entry(provider@) {
                Some(e) => Some(CacheView { dirty: true, ..e }),
                None => None,
            },
            forall|p: Seq<char>| p != provider@ ==> #[trigger] final(self).entry(p) == old(self).entry(p),
    {
        let ghost orig = self.entries@;
        let mut rest: Vec<CacheEntry> = Vec::new();
        core::mem::swap(&mut rest, &mut self.entries);
        let n = rest.len();
        let mut done: usize = 0;
        let mut out: Vec<CacheEntry> = Vec::new();
        proof {
            assert(orig.subrange(0, orig.len() as int) =~= orig);
            assert(out@ =~= orig.subrange(0, 0));
        }
        while rest.len() > 0
            invariant
                n == orig.len(),
                done + rest.len() == n,
                entries_selectable(orig),
                rest@ == orig.subrange(done as int, orig.len() as int),
                out@.len() == done,
                forall|i: int| 0 <= i < done ==> (#[trigger] out@[i]).provider == orig[i].provider && out@[i].data == orig[i].data && out@[i].refreshed_at == orig[i].refreshed_at,
                forall|i: int| 0 <= i < done ==> (#[trigger] out@[i]).dirty == (orig[i].dirty || orig[i].provider@ == provider@),
            decreases rest.len(),
        {
            let mut e = rest.remove(0);
            assert(rest@ == orig.subrange(done + 1, orig.len() as int));
            if same_text(e.provider.as_str(), provider) {
                e.dirty = true;
            }
            out.push(e);
            done = done + 1;
        }
        proof {
            assert(entries_selectable(out@)) by {
                assert forall|i: int, j: int|
                    0 <= i < out@.len() && 0 <= j < out@[i].data@.len() implies selectable(
                    #[trigger] out@[i].data@[j]@,
                ) by {
                    assert(out@[i].data == orig[i].data);
                }
            }
            lemma_entry_marked(orig, out@, provider@);
        }
        self.entries = out;
    }

    /// Stores a fresh ranking for `provider`, refreshed at `now`.
    fn store(&mut self, provider: &str, data: Vec<ApiKey>, now: u64)
        requires
            old(self).wf(),
            forall|j: int| 0 <= j < data@.len() ==> selectable(#[trigger] data@[j]@),
        ensures
            final(self).wf(),
            final(self).ttl() == old(self).ttl(),
            final(self).entry(provider@) == Some(CacheView { data: keys_view(data@), refreshed_at: now, dirty: false }),
            forall|p: Seq<char>| p != provider@ ==> #[trigger] final(self).entry(p) == old(self).entry(p),
    {
        let ghost orig = self.entries@;
        let mut rest: Vec<CacheEntry> = Vec::new();
        core::mem::swap(&mut rest, &mut self.entries);
        let n = rest.len();
        let mut done: usize = 0;
        let mut kept: Vec<CacheEntry> = Vec::new();
        while rest.len() > 0
            invariant
                n == orig.len(),
                done + rest.len() == n,
                entries_selectable(orig),
                entries_selectable(kept@),
                rest@ == orig.subrange(done as int, orig.len() as int),
                entry_in(kept@, provider@) is None,
                forall|p: Seq<char>|
                    p != provider@ ==> #[trigger] entry_in(kept@, p) == entry_in(orig.subrange(0, done as int), p),
            decreases rest.len(),
        {
            let e = rest.remove(0);
            assert(rest@ == orig.subrange(done + 1, orig.len() as int));
            assert(e == orig[done as int]);
            let ghost prefix = orig.subrange(0, done as int);
            assert(orig.subrange(0, done + 1) == prefix.push(e));
            let ghost before = kept@;
            let keep = !same_text(e.provider.as_str(), provider);
            if keep {
                kept.push(e);
                assert(entries_selectable(kept@)) by {
                    assert forall|i: int, j: int|
                        0 <= i < kept@.len() && 0 <= j < kept@[i].data@.len() implies selectable(
                        #[trigger] kept@[i].data@[j]@,
                    ) by {
                        if i < before.len() {
                            assert(kept@[i] == before[i]);
                        } else {
                            assert(kept@[i] == orig[done as int]);
                        }
                    }
                }
            }
            proof {
                assert forall|p: Seq<char>| p != provider@ implies #[trigger] entry_in(kept@, p) == entry_in(
                    orig.subrange(0, done + 1),
                    p,
                ) by {
                    lemma_entry_in_push(prefix, e, p);
                    if keep {
                        lemma_entry_in_push(before, e, p);
                    }
                }
                if keep {
                    lemma_entry_in_push(before, e, provider@);
                }
            }
            done = done + 1;
        }
        let ghost rest_entries = kept@;
        let ghost data_view = keys_view(data@);
        let first = CacheEntry { provider: String::from_str(provider), data, refreshed_at: now, dirty: false };
        kept.insert(0, first);
        proof {
            assert(kept@.drop_first() == rest_entries);
            assert(orig.subrange(0, orig.len() as int) == orig);
            assert forall|p: Seq<char>| p != provider@ implies #[trigger] entry_in(kept@, p) == entry_in(orig, p) by {
                assert(entry_in(kept@, p) == entry_in(rest_entries, p));
            }
            assert forall|i: int, j: int|
                0 <= i < kept@.len() && 0 <= j < kept@[i].data@.len() implies selectable(
                #[trigger] kept@[i].data@[j]@,
            ) by {
                if i > 0 {
                    assert(kept@[i] == rest_entries[i - 1]);
                }
            }
        }
        self.entries = kept;
    }
}

proof fn lemma_entry_marked(orig: Seq<CacheEntry>, out: Seq<CacheEntry>, provider: Seq<char>)
    requires
        out.len() == orig.len(),
        forall|i: int| 0 <= i < out.len() ==> (#[trigger] out[i]).provider == orig[i].provider && out[i].data == orig[i].data && out[i].refreshed_at == orig[i].refreshed_at,
        forall|i: int| 0 <= i < out.len() ==> (#[trigger] out[i]).dirty == (orig[i].dirty || orig[i].provider@ == provider),
    ensures
        entry_in(out, provider) == match entry_in(orig, provider) {
            Some(e) => Some(CacheView { dirty: true, ..e }),
            None => None,
        },
        forall|p: Seq<char>| p != provider ==> #[trigger] entry_in(out, p) == entry_in(orig, p),
    decreases orig.len(),
{
    if orig.len() > 0 {
        assert(out[0].provider == orig[0].provider);
        let o2 = orig.drop_first();
        let u2 = out.drop_first();
        assert forall|i: int| 0 <= i < u2.len() implies (#[trigger] u2[i]).provider == o2[i].provider && u2[i].data == o2[i].data && u2[i].refreshed_at == o2[i].refreshed_at by {
            assert(u2[i] == out[i + 1]);
        }
        assert forall|i: int| 0 <= i < u2.len() implies (#[trigger] u2[i]).dirty == (o2[i].dirty || o2[i].provider@ == provider) by {
            assert(u2[i] == out[i + 1]);
        }
        lemma_entry_marked(o2, u2, provider);
        assert(out[0].provider@ == orig[0].provider@);
        assert forall|p: Seq<char>| p != provider implies #[trigger] entry_in(out, p) == entry_in(orig, p) by {
            if orig[0].provider@ == p {
                assert(out[0].dirty == orig[0].dirty);
            } else {
                assert(entry_in(u2, p) == entry_in(o2, p));
            }
        }
    }
}

/// The ranked, usable candidates of `provider` at `now`: the cached ranking
/// while it is fresh, else a new one computed from the store's active keys
/// and cached; then without the keys that the guard vetoes.
pub fn get_healthy_sorted_keys_via_cache(
    cache: &mut HealthCache,
    store: &KeyStore,
    guard: &CooldownGuard,
    provider: &str,
    now: u64,
) -> (r: Vec<ApiKey>)
    requires
        old(cache).wf(),
    ensures
        final(cache).wf(),
        final(cache).ttl() == old(cache).ttl(),
        final(cache).entry(provider@) matches Some(e) && {
            &&& keys_view(r@) == not_vetoed(e.data, *guard, now)
            &&& !e.dirty
            &&& match old(cache).entry(provider@) {
                Some(o) if is_fresh(o, old(cache).ttl(), now) => e == o,
                _ => {
                    &&& e.refreshed_at == now
                    &&& e.data.to_multiset() == selectable_keys(candidates_of(store@, provider@)).to_multiset()
                    &&& sorted_by_score(e.data, now)
                    &&& exists|pos: Seq<int>| ranks(candidates_of(store@, provider@), e.data, pos, now)
                },
            }
        },
        forall|p: Seq<char>| p != provider@ ==> #[trigger] final(cache).entry(p) == old(cache).entry(p),
{
    let ranked = match cache.lookup(provider, now) {
        Some(d) => d,
        None => {
            let d = get_healthy_sorted_keys(store.list_candidates(provider), now);
            proof {
                broadcast use vstd::seq_lib::group_to_multiset_ensures, vstd::seq_lib::group_filter_ensures;

                assert forall|j: int| 0 <= j < d@.len() implies selectable(#[trigger] d@[j]@) by {
                    let kv = keys_view(d@);
                    assert(kv[j] == d@[j]@);
                    assert(kv.contains(kv[j]));
                    assert(kv.to_multiset().count(kv[j]) > 0);
                }
            }
            let copy = duplicate_keys(&d);
            cache.store(provider, d, now);
            copy
        },
    };
    let ghost data = keys_view(ranked@);
    let ghost pred = |k: KeyView| !guard.cooling(k.id, now);
    let mut out: Vec<ApiKey> = Vec::new();
    let mut i: usize = 0;
    proof {
        reveal(Seq::filter);
        assert(data.subrange(0, 0) =~= Seq::<KeyView>::empty());
        assert(keys_view(out@) =~= data.subrange(0, 0).filter(pred));
    }
    while i < ranked.len()
        invariant
            i <= ranked.len(),
            data == keys_view(ranked@),
            pred == (|k: KeyView| !guard.cooling(k.id, now)),
            keys_view(out@) == data.subrange(0, i as int).filter(pred),
        decreases ranked.len() - i,
    {
        proof {
            assert(data.subrange(0, i + 1) =~= data.subrange(0, i as int).push(data[i as int]));
            lemma_filter_push(data.subrange(0, i as int), data[i as int], pred);
        }
        if !guard.is_cooling(ranked[i].id.as_str(), now) {
            let k = ranked[i].duplicate();
            let ghost before = out@;
            out.push(k);
            assert(keys_view(out@) =~= keys_view(before).push(k@));
        }
        i = i + 1;
    }
    assert(data.subrange(0, data.len() as int) == data);
    out
}

} // verus!
