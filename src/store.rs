//! The key store: the durable record of every key, and the state updater's
//! rules for applying queued updates to it.

use vstd::prelude::*;
use crate::queue::StateUpdate;
use crate::record::{
    lemma_filter_push, coolings_view, cooling_for_model, distinct_ids, distinct_models, key_wf, keys_view, same_text, ApiKey,
    ApiKeyStatus, CoolingView, KeyView, ModelCooling,
};

verus! {

/// The success average after one more success, in thousandths.
pub open spec fn rate_after_success(r: u64) -> u64 {
    ((r * 99 + 1000) / 100) as u64
}

/// The success average after one more failure, in thousandths.
pub open spec fn rate_after_failure(r: u64) -> u64 {
    ((r * 99) / 100) as u64
}

/// A key after a metrics update: the latency and check time are recorded; a
/// success clears the failure count and raises the average, a failure adds
/// to the count and lowers the average.
pub open spec fn metrics_applied(k: KeyView, is_success: bool, latency: u64, now: u64) -> KeyView {
    if is_success {
        KeyView {
            latency_ms: latency,
            success_permille: rate_after_success(k.success_permille),
            consecutive_failures: 0,
            last_checked_at: now,
            last_succeeded_at: now,
            updated_at: now,
            ..k
        }
    } else {
        KeyView {
            latency_ms: latency,
            success_permille: rate_after_failure(k.success_permille),
            consecutive_failures: k.consecutive_failures.saturating_add(1),
            last_checked_at: now,
            updated_at: now,
            ..k
        }
    }
}

/// A key after a status update.
pub open spec fn status_applied(k: KeyView, status: ApiKeyStatus, now: u64) -> KeyView {
    KeyView { status, updated_at: now, ..k }
}

/// The first cooldown entry for `model`.
pub open spec fn cooling_entry_in(cs: Seq<CoolingView>, model: Seq<char>) -> Option<CoolingView>
    decreases cs.len(),
{
    if cs.len() == 0 {
        None
    } else if cs[0].model == model {
        Some(cs[0])
    } else {
        cooling_entry_in(cs.drop_first(), model)
    }
}

/// The cooldown entries of models other than `model`.
pub open spec fn without_model(cs: Seq<CoolingView>, model: Seq<char>) -> Seq<CoolingView> {
    cs.filter(|c: CoolingView| c.model != model)
}

/// A key after a cooldown update for `model`: nothing changes while the
/// key still cools for that model; otherwise the model's entry ends at
/// `now + d` and its total, like the key's, grows by `d`.
pub open spec fn cooldown_applied(k: KeyView, model: Seq<char>, d: u64, now: u64) -> KeyView {
    if cooling_for_model(k, model, now) {
        k
    } else {
        let prev_total: u64 = match cooling_entry_in(k.model_coolings, model) {
            Some(c) => c.total_seconds,
            None => 0,
        };
        let entry = CoolingView { model, total_seconds: prev_total.saturating_add(d), end_at: now.saturating_add(d) };
        KeyView {
            model_coolings: without_model(k.model_coolings, model).push(entry),
            total_cooling_seconds: k.total_cooling_seconds.saturating_add(d),
            updated_at: now,
            ..k
        }
    }
}

/// A key after an update at time `now`. Keys of other ids are untouched,
/// and so is a key that has already taken this update: a redelivery
/// changes nothing. Otherwise the key records the update's identity and
/// takes its effect.
pub open spec fn update_applied(k: KeyView, u: StateUpdate, now: u64) -> KeyView {
    if k.id != u.target() || k.applied_updates.contains(u.ident()) {
        k
    } else {
        let marked = KeyView { applied_updates: k.applied_updates.push(u.ident()), ..k };
        match u {
            StateUpdate::SetStatus { status, .. } => status_applied(marked, status, now),
            StateUpdate::SetCooldown { model, duration_secs, .. } => cooldown_applied(marked, model@, duration_secs, now),
            StateUpdate::UpdateMetrics { is_success, latency, .. } => metrics_applied(marked, is_success, latency, now),
        }
    }
}

/// Dropping one model's entries keeps the others distinct, and leaves none
/// of that model.
proof fn lemma_without_model_distinct(cs: Seq<CoolingView>, m: Seq<char>)
    requires
        distinct_models(cs),
    ensures
        distinct_models(without_model(cs, m)),
        forall|i: int| 0 <= i < without_model(cs, m).len() ==> (#[trigger] without_model(cs, m)[i]).model != m
            && cs.contains(without_model(cs, m)[i]),
    decreases cs.len(),
{
    broadcast use vstd::seq_lib::group_filter_ensures;

    if cs.len() > 0 {
        let init = cs.drop_last();
        let pred = |c: CoolingView| c.model != m;
        assert forall|a: int, b: int| 0 <= a < b < init.len() implies (#[trigger] init[a]).model != (#[trigger] init[b]).model by {
            assert(init[a] == cs[a] && init[b] == cs[b]);
        }
        lemma_without_model_distinct(init, m);
        assert(cs == init.push(cs.last()));
        lemma_filter_push(init, cs.last(), pred);
        let f = without_model(init, m);
        assert forall|i: int| 0 <= i < f.len() implies cs.contains(#[trigger] f[i]) by {
            let j = choose|j: int| 0 <= j < init.len() && init[j] == f[i];
            assert(cs[j] == f[i]);
        }
        if pred(cs.last()) {
            let g = without_model(cs, m);
            assert(g == f.push(cs.last()));
            assert forall|a: int, b: int| 0 <= a < b < g.len() implies (#[trigger] g[a]).model != (#[trigger] g[b]).model by {
                if b == g.len() - 1 {
                    assert(g[a] == f[a]);
                    let j = choose|j: int| 0 <= j < init.len() && init[j] == f[a];
                    assert(cs[j] == f[a]);
                    assert(cs[j].model != cs[cs.len() - 1].model);
                } else {
                    assert(g[a] == f[a] && g[b] == f[b]);
                }
            }
            assert forall|i: int| 0 <= i < g.len() implies (#[trigger] g[i]).model != m && cs.contains(g[i]) by {
                if i < f.len() {
                    assert(g[i] == f[i]);
                } else {
                    assert(g[i] == cs[cs.len() - 1]);
                }
            }
        }
    } else {
        reveal(Seq::filter);
    }
}

/// An update keeps a key's id and its well-formedness.
pub proof fn lemma_update_keeps_wf(k: KeyView, u: StateUpdate, now: u64)
    requires
        key_wf(k),
    ensures
        key_wf(update_applied(k, u, now)),
        update_applied(k, u, now).id == k.id,
{
    if let StateUpdate::SetCooldown { model, .. } = u {
        lemma_without_model_distinct(k.model_coolings, model@);
        let f = without_model(k.model_coolings, model@);
        let r = update_applied(k, u, now);
        if r.model_coolings != k.model_coolings {
            let entry = r.model_coolings.last();
            assert(r.model_coolings == f.push(entry));
            assert forall|a: int, b: int| 0 <= a < b < r.model_coolings.len() implies (#[trigger] r.model_coolings[a]).model
                != (#[trigger] r.model_coolings[b]).model by {
                if b == f.len() {
                    assert(r.model_coolings[a] == f[a]);
                } else {
                    assert(r.model_coolings[a] == f[a] && r.model_coolings[b] == f[b]);
                }
            }
        }
    }
}

/// Every key after an update at time `now`.
pub open spec fn apply_to_all(keys: Seq<KeyView>, u: StateUpdate, now: u64) -> Seq<KeyView> {
    keys.map_values(|k: KeyView| update_applied(k, u, now))
}

/// The active keys of a provider, in stored order.
pub open spec fn active_of(keys: Seq<KeyView>, provider: Seq<char>) -> Seq<KeyView> {
    keys.filter(|k: KeyView| k.provider == provider && k.status == ApiKeyStatus::Active)
}

/// The first key with this id.
pub open spec fn find_by_id(keys: Seq<KeyView>, id: Seq<char>) -> Option<KeyView>
    decreases keys.len(),
{
    if keys.len() == 0 {
        None
    } else if keys[0].id == id {
        Some(keys[0])
    } else {
        find_by_id(keys.drop_first(), id)
    }
}

/// The new success average after one more outcome.
fn next_rate(r: u64, is_success: bool) -> (n: u64)
    ensures
        n == if is_success {
            rate_after_success(r)
        } else {
            rate_after_failure(r)
        },
{
    let wide = r as u128 * 99;
    if is_success {
        assert((wide + 1000) / 100 <= u64::MAX) by (nonlinear_arith)
            requires
                wide == r * 99,
                r <= u64::MAX,
        ;
        ((wide + 1000) / 100) as u64
    } else {
        assert(wide / 100 <= u64::MAX) by (nonlinear_arith)
            requires
                wide == r * 99,
                r <= u64::MAX,
        ;
        (wide / 100) as u64
    }
}

/// The total cooldown recorded so far for `model`.
fn prior_total(cs: &Vec<ModelCooling>, model: &str) -> (t: u64)
    ensures
        t == match cooling_entry_in(coolings_view(cs@), model@) {
            Some(c) => c.total_seconds,
            None => 0,
        },
{
    let ghost v = coolings_view(cs@);
    let mut i: usize = 0;
    assert(v.subrange(0, v.len() as int) == v);
    while i < cs.len()
        invariant
            i <= cs.len(),
            v == coolings_view(cs@),
            cooling_entry_in(v, model@) == cooling_entry_in(v.subrange(i as int, v.len() as int), model@),
        decreases cs.len() - i,
    {
        assert(v.subrange(i as int, v.len() as int).drop_first() == v.subrange(i + 1, v.len() as int));
        if same_text(cs[i].model.as_str(), model) {
            return cs[i].total_seconds;
        }
        i = i + 1;
    }
    0
}

/// `cs` without the entries of `model`, then the new entry.
fn replace_cooling(cs: Vec<ModelCooling>, entry: ModelCooling) -> (r: Vec<ModelCooling>)
    ensures
        coolings_view(r@) == without_model(coolings_view(cs@), entry.model@).push(entry@),
{
    let ghost orig = cs@;
    let ghost model = entry.model@;
    let ghost pred = |c: CoolingView| c.model != model;
    let mut rest = cs;
    let mut kept: Vec<ModelCooling> = Vec::new();
    let mut done: usize = 0;
    let n = rest.len();
    proof {
        reveal(Seq::filter);
        assert(coolings_view(orig.subrange(0, 0)) =~= Seq::<CoolingView>::empty());
        assert(orig.subrange(0, orig.len() as int) =~= orig);
    }
    while rest.len() > 0
        invariant
            n == orig.len(),
            done + rest.len() == n,
            model == entry.model@,
            pred == (|c: CoolingView| c.model != model),
            rest@ == orig.subrange(done as int, orig.len() as int),
            coolings_view(kept@) == coolings_view(orig.subrange(0, done as int)).filter(pred),
        decreases rest.len(),
    {
        let c = rest.remove(0);
        assert(rest@ == orig.subrange(done + 1, orig.len() as int));
        let ghost prefix = coolings_view(orig.subrange(0, done as int));
        proof {
            assert(coolings_view(orig.subrange(0, done + 1)) =~= prefix.push(c@));
            lemma_filter_push(prefix, c@, pred);
        }
        if !same_text(c.model.as_str(), entry.model.as_str()) {
            let ghost before = kept@;
            kept.push(c);
            assert(coolings_view(kept@) =~= coolings_view(before).push(c@));
        }
        done = done + 1;
    }
    let ghost before = kept@;
    kept.push(entry);
    assert(coolings_view(kept@) =~= coolings_view(before).push(entry@));
    kept
}

/// Whether `id` is among `ids`.
fn contains_id(ids: &Vec<u64>, id: u64) -> (r: bool)
    ensures
        r == ids@.contains(id),
{
    let mut i: usize = 0;
    while i < ids.len()
        invariant
            i <= ids.len(),
            forall|j: int| 0 <= j < i ==> ids@[j] != id,
        decreases ids.len() - i,
    {
        if ids[i] == id {
            return true;
        }
        i = i + 1;
    }
    false
}

/// One key after an update at time `now`.
pub fn apply_to_key(k: ApiKey, u: &StateUpdate, now: u64) -> (r: ApiKey)
    ensures
        r@ == update_applied(k@, *u, now),
        key_wf(k@) ==> key_wf(r@),
{
    proof {
        if key_wf(k@) {
            lemma_update_keeps_wf(k@, *u, now);
        }
    }
    if !same_text(k.id.as_str(), u.key_id()) {
        return k;
    }
    if contains_id(&k.applied_updates, u.update_id()) {
        return k;
    }
    let mut k = k;
    k.applied_updates.push(u.update_id());
    match u {
        StateUpdate::SetStatus { status, .. } => {
            k.status = *status;
            k.updated_at = now;
        },
        StateUpdate::SetCooldown { model, duration_secs, .. } => {
            if !k.is_cooling_for_model(model.as_str(), now) {
                let d = *duration_secs;
                let prev = prior_total(&k.model_coolings, model.as_str());
                let entry = ModelCooling {
                    model: model.clone(),
                    total_seconds: prev.saturating_add(d),
                    end_at: now.saturating_add(d),
                };
                let mut cs: Vec<ModelCooling> = Vec::new();
                core::mem::swap(&mut cs, &mut k.model_coolings);
                k.model_coolings = replace_cooling(cs, entry);
                k.total_cooling_seconds = k.total_cooling_seconds.saturating_add(d);
                k.updated_at = now;
            }
        },
        StateUpdate::UpdateMetrics { is_success, latency, .. } => {
            k.latency_ms = *latency;
            k.success_permille = next_rate(k.success_permille, *is_success);
            k.last_checked_at = now;
            k.updated_at = now;
            if *is_success {
                k.consecutive_failures = 0;
                k.last_succeeded_at = now;
            } else {
                k.consecutive_failures = k.consecutive_failures.saturating_add(1);
            }
        },
    }
    k
}

/// Some key of `provider` already holds this secret.
pub open spec fn has_key(keys: Seq<KeyView>, provider: Seq<char>, key: Seq<char>) -> bool {
    exists|i: int| 0 <= i < keys.len() && (#[trigger] keys[i]).provider == provider && keys[i].key == key
}

/// The keys of a list that `provider` does not hold yet.
pub open spec fn keys_to_add(keys: Seq<KeyView>, provider: Seq<char>, list: Seq<Seq<char>>) -> Seq<Seq<char>> {
    list.filter(|w: Seq<char>| !has_key(keys, provider, w))
}

/// A key record as a new key starts: active, without cooldowns or latency,
/// with a perfect success average, created at `now`.
pub open spec fn new_key_view(id: Seq<char>, key: Seq<char>, provider: Seq<char>, now: u64) -> KeyView {
    KeyView {
        id,
        key,
        provider,
        status: ApiKeyStatus::Active,
        model_coolings: Seq::empty(),
        total_cooling_seconds: 0,
        created_at: now,
        updated_at: now,
        latency_ms: 0,
        success_permille: 1000,
        consecutive_failures: 0,
        last_checked_at: 0,
        last_succeeded_at: 0,
        applied_updates: Seq::empty(),
    }
}

/// Some key has this id.
pub open spec fn holds_id(keys: Seq<KeyView>, id: Seq<char>) -> bool {
    exists|i: int| 0 <= i < keys.len() && (#[trigger] keys[i]).id == id
}

/// Ids that a store may give to new keys: none held yet, none twice.
pub open spec fn ids_usable(keys: Seq<KeyView>, ids: Seq<Seq<char>>) -> bool {
    &&& forall|a: int| 0 <= a < ids.len() ==> !holds_id(keys, #[trigger] ids[a])
    &&& forall|a: int, b: int| 0 <= a < b < ids.len() ==> #[trigger] ids[a] != #[trigger] ids[b]
}

/// The keys that a provider may be served: none for an empty provider
/// name, else its active keys.
pub open spec fn candidates_of(keys: Seq<KeyView>, provider: Seq<char>) -> Seq<KeyView> {
    if provider.len() == 0 {
        Seq::empty()
    } else {
        active_of(keys, provider)
    }
}

/// Why the store refused new keys.
#[derive(Clone, Copy, Debug, PartialEq, Eq, Structural)]
pub enum StoreError {
    /// A freshly drawn id was already in use.
    DuplicateId,
}

/// Whether no model has two entries among these cooldowns.
fn coolings_distinct(cs: &Vec<ModelCooling>) -> (r: bool)
    ensures
        r == distinct_models(coolings_view(cs@)),
{
    let ghost v = coolings_view(cs@);
    let mut a: usize = 0;
    while a < cs.len()
        invariant
            a <= cs.len(),
            v == coolings_view(cs@),
            forall|x: int, y: int| 0 <= x < y < v.len() && x < a ==> (#[trigger] v[x]).model != (#[trigger] v[y]).model,
        decreases cs.len() - a,
    {
        let mut b: usize = a + 1;
        while b < cs.len()
            invariant
                a < b <= cs.len(),
                v == coolings_view(cs@),
                forall|y: int| a < y < b ==> v[a as int].model != (#[trigger] v[y]).model,
            decreases cs.len() - b,
        {
            if same_text(cs[a].model.as_str(), cs[b].model.as_str()) {
                assert(v[a as int] == cs@[a as int]@ && v[b as int] == cs@[b as int]@);
                assert(v[a as int].model == v[b as int].model);
                return false;
            }
            b = b + 1;
        }
        a = a + 1;
    }
    true
}

/// Relies on `uuid::Uuid::new_v4` and the hyphenated text that its
/// `Display` gives: a random identifier. Nothing is promised of it.
#[verifier::external_body]
fn fresh_key_id() -> (r: String) {
    uuid::Uuid::new_v4().to_string()
}

/// The durable record of every key, in the order in which keys were added.
#[derive(Debug)]
pub struct KeyStore {
    keys: Vec<ApiKey>,
}

impl View for KeyStore {
    type V = Seq<KeyView>;

    closed spec fn view(&self) -> Seq<KeyView> {
        keys_view(self.keys@)
    }
}

impl KeyStore {
    /// The store's invariant: no two keys share an id, and every key is
    /// well formed.
    pub open spec fn wf(&self) -> bool {
        &&& distinct_ids(self@)
        &&& forall|i: int| 0 <= i < self@.len() ==> key_wf(#[trigger] self@[i])
    }

    /// A store without keys.
    pub fn new() -> (r: KeyStore)
        ensures
            r.wf(),
            r@ == Seq::<KeyView>::empty(),
    {
        let r = KeyStore { keys: Vec::new() };
        assert(r@ =~= Seq::<KeyView>::empty());
        r
    }

    /// Whether some key has this id.
    pub fn holds_id(&self, id: &str) -> (r: bool)
        ensures
            r == holds_id(self@, id@),
    {
        let ghost all = keys_view(self.keys@);
        let mut i: usize = 0;
        while i < self.keys.len()
            invariant
                i <= self.keys.len(),
                all == keys_view(self.keys@),
                forall|j: int| 0 <= j < i ==> (#[trigger] all[j]).id != id@,
            decreases self.keys.len() - i,
        {
            assert(all[i as int] == self.keys@[i as int]@);
            if same_text(self.keys[i].id.as_str(), id) {
                return true;
            }
            i = i + 1;
        }
        false
    }

    /// Adds a key record at the end, unless its id is taken or it records
    /// two cooldowns for one model; whether it was added.
    pub fn insert(&mut self, key: ApiKey) -> (inserted: bool)
        requires
            old(self).wf(),
        ensures
            final(self).wf(),
            inserted == (!holds_id(old(self)@, key@.id) && key_wf(key@)),
            inserted ==> final(self)@ == old(self)@.push(key@),
            !inserted ==> final(self)@ == old(self)@,
    {
        if self.holds_id(key.id.as_str()) || !coolings_distinct(&key.model_coolings) {
            return false;
        }
        let ghost before = self.keys@;
        let ghost kv = key@;
        self.keys.push(key);
        assert(keys_view(self.keys@) =~= keys_view(before).push(kv));
        assert forall|a: int, b: int| 0 <= a < b < self@.len() implies (#[trigger] self@[a]).id != (#[trigger] self@[b]).id by {
            if b == self@.len() - 1 {
                assert(self@[a] == keys_view(before)[a]);
            } else {
                assert(self@[a] == keys_view(before)[a] && self@[b] == keys_view(before)[b]);
            }
        }
        assert forall|i: int| 0 <= i < self@.len() implies key_wf(#[trigger] self@[i]) by {
            if i < keys_view(before).len() {
                assert(self@[i] == keys_view(before)[i]);
            }
        }
        true
    }

    /// The number of keys held.
    pub fn len(&self) -> (r: usize)
        ensures
            r == self@.len(),
    {
        self.keys.len()
    }

    /// The active keys of a provider, whatever their cooldowns, in stored
    /// order; none for an empty provider name.
    pub fn list_candidates(&self, provider: &str) -> (r: Vec<ApiKey>)
        ensures
            keys_view(r@) == candidates_of(self@, provider@),
    {
        if provider.unicode_len() == 0 {
            let r: Vec<ApiKey> = Vec::new();
            assert(keys_view(r@) =~= Seq::<KeyView>::empty());
            return r;
        }
        let ghost all = keys_view(self.keys@);
        let ghost pred = |k: KeyView| k.provider == provider@ && k.status == ApiKeyStatus::Active;
        let mut r: Vec<ApiKey> = Vec::new();
        let mut i: usize = 0;
        proof {
            reveal(Seq::filter);
            assert(all.subrange(0, 0) =~= Seq::<KeyView>::empty());
            assert(keys_view(r@) =~= all.subrange(0, 0).filter(pred));
        }
        while i < self.keys.len()
            invariant
                i <= self.keys.len(),
                all == keys_view(self.keys@),
                pred == (|k: KeyView| k.provider == provider@ && k.status == ApiKeyStatus::Active),
                keys_view(r@) == all.subrange(0, i as int).filter(pred),
            decreases self.keys.len() - i,
        {
            proof {
                assert(all.subrange(0, i + 1) =~= all.subrange(0, i as int).push(all[i as int]));
                lemma_filter_push(all.subrange(0, i as int), all[i as int], pred);
            }
            if self.keys[i].status == ApiKeyStatus::Active && same_text(self.keys[i].provider.as_str(), provider) {
                let k = self.keys[i].duplicate();
                let ghost before = r@;
                r.push(k);
                assert(keys_view(r@) =~= keys_view(before).push(k@));
            }
            i = i + 1;
        }
        assert(all.subrange(0, all.len() as int) == all);
        r
    }
    /// Whether some key of `provider` holds the secret `key`.
    pub fn holds_key(&self, provider: &str, key: &str) -> (r: bool)
        ensures
            r == has_key(self@, provider@, key@),
    {
        let ghost all = keys_view(self.keys@);
        let mut i: usize = 0;
        while i < self.keys.len()
            invariant
                i <= self.keys.len(),
                all == keys_view(self.keys@),
                forall|j: int| 0 <= j < i ==> !((#[trigger] all[j]).provider == provider@ && all[j].key == key@),
            decreases self.keys.len() - i,
        {
            assert(all[i as int] == self.keys@[i as int]@);
            if same_text(self.keys[i].provider.as_str(), provider) && same_text(self.keys[i].key.as_str(), key) {
                return true;
            }
            i = i + 1;
        }
        false
    }

    /// Whether these ids may be given to new keys: none is held yet and
    /// none comes twice.
    fn ids_usable(&self, ids: &Vec<String>) -> (r: bool)
        ensures
            r == ids_usable(self@, crate::intake::texts_view(ids@)),
    {
        let ghost iv = crate::intake::texts_view(ids@);
        let mut a: usize = 0;
        while a < ids.len()
            invariant
                a <= ids.len(),
                iv == crate::intake::texts_view(ids@),
                forall|x: int| 0 <= x < a ==> !holds_id(self@, #[trigger] iv[x]),
                forall|x: int, y: int| 0 <= x < y < iv.len() && x < a ==> #[trigger] iv[x] != #[trigger] iv[y],
            decreases ids.len() - a,
        {
            assert(iv[a as int] == ids@[a as int]@);
            if self.holds_id(ids[a].as_str()) {
                assert(holds_id(self@, iv[a as int]));
                return false;
            }
            let mut b: usize = a + 1;
            while b < ids.len()
                invariant
                    a < b <= ids.len(),
                    iv == crate::intake::texts_view(ids@),
                    forall|y: int| a < y < b ==> iv[a as int] != #[trigger] iv[y],
                decreases ids.len() - b,
            {
                if same_text(ids[a].as_str(), ids[b].as_str()) {
                    assert(iv[a as int] == ids@[a as int]@ && iv[b as int] == ids@[b as int]@);
                    assert(iv[a as int] == iv[b as int]);
                    return false;
                }
                b = b + 1;
            }
            a = a + 1;
        }
        true
    }

    /// Adds a new key, with a fresh random id, for each key of `keys`
    /// that `provider` does not hold yet; the number added. Should a drawn
    /// id be taken already, nothing is added.
    pub fn insert_new_keys(&mut self, provider: &str, keys: &Vec<String>, now: u64) -> (r: Result<usize, StoreError>)
        requires
            old(self).wf(),
        ensures
            final(self).wf(),
            match r {
                Ok(added) => {
                    let fresh = keys_to_add(old(self)@, provider@, crate::intake::texts_view(keys@));
                    &&& added == fresh.len()
                    &&& final(self)@.len() == old(self)@.len() + fresh.len()
                    &&& final(self)@.subrange(0, old(self)@.len() as int) == old(self)@
                    &&& forall|j: int|
                        0 <= j < fresh.len() ==> #[trigger] final(self)@[old(self)@.len() + j] == new_key_view(
                            final(self)@[old(self)@.len() + j].id,
                            fresh[j],
                            provider@,
                            now,
                        )
                },
                Err(e) => e == StoreError::DuplicateId && final(self)@ == old(self)@,
            },
    {
        let ghost before = self@;
        let ghost wanted = crate::intake::texts_view(keys@);
        let ghost pred = |w: Seq<char>| !has_key(before, provider@, w);
        let mut fresh: Vec<String> = Vec::new();
        let mut i: usize = 0;
        proof {
            reveal(Seq::filter);
            assert(wanted.subrange(0, 0) =~= Seq::<Seq<char>>::empty());
            assert(crate::intake::texts_view(fresh@) =~= wanted.subrange(0, 0).filter(pred));
        }
        while i < keys.len()
            invariant
                i <= keys.len(),
                self@ == before,
                wanted == crate::intake::texts_view(keys@),
                pred == (|w: Seq<char>| !has_key(before, provider@, w)),
                crate::intake::texts_view(fresh@) == wanted.subrange(0, i as int).filter(pred),
            decreases keys.len() - i,
        {
            proof {
                assert(wanted.subrange(0, i + 1) =~= wanted.subrange(0, i as int).push(wanted[i as int]));
                lemma_filter_push(wanted.subrange(0, i as int), wanted[i as int], pred);
            }
            if !self.holds_key(provider, keys[i].as_str()) {
                let ghost prev = fresh@;
                fresh.push(keys[i].clone());
                assert(crate::intake::texts_view(fresh@) =~= crate::intake::texts_view(prev).push(wanted[i as int]));
            }
            i = i + 1;
        }
        assert(wanted.subrange(0, wanted.len() as int) == wanted);
        let mut ids: Vec<String> = Vec::new();
        let mut d: usize = 0;
        while d < fresh.len()
            invariant
                d <= fresh.len(),
                ids@.len() == d,
            decreases fresh.len() - d,
        {
            ids.push(fresh_key_id());
            d = d + 1;
        }
        if !self.ids_usable(&ids) {
            return Err(StoreError::DuplicateId);
        }
        let ghost fv = crate::intake::texts_view(fresh@);
        let ghost iv = crate::intake::texts_view(ids@);
        let mut j: usize = 0;
        while j < fresh.len()
            invariant
                j <= fresh.len(),
                ids@.len() == fresh.len(),
                fv == crate::intake::texts_view(fresh@),
                iv == crate::intake::texts_view(ids@),
                ids_usable(before, iv),
                self.wf(),
                self@.len() == before.len() + j,
                self@.subrange(0, before.len() as int) == before,
                forall|m: int| 0 <= m < j ==> (#[trigger] self@[before.len() + m]).id == iv[m],
                forall|m: int|
                    0 <= m < j ==> #[trigger] self@[before.len() + m] == new_key_view(
                        self@[before.len() + m].id,
                        fv[m],
                        provider@,
                        now,
                    ),
            decreases fresh.len() - j,
        {
            let k = ApiKey::new(ids[j].as_str(), fresh[j].as_str(), provider, now);
            let ghost prev = self@;
            proof {
                assert(k@.id == iv[j as int]);
                assert(key_wf(k@));
                if holds_id(prev, k@.id) {
                    let x = choose|x: int| 0 <= x < prev.len() && (#[trigger] prev[x]).id == k@.id;
                    if x < before.len() {
                        assert(prev[x] == before[x]);
                        assert(holds_id(before, iv[j as int]));
                    } else {
                        let m = x - before.len();
                        assert(prev[before.len() + m].id == iv[m]);
                        assert(iv[m] != iv[j as int]);
                    }
                }
            }
            let inserted = self.insert(k);
            assert(inserted);
            assert(self@.subrange(0, before.len() as int) =~= prev.subrange(0, before.len() as int));
            assert forall|m: int| 0 <= m < j + 1 implies (#[trigger] self@[before.len() + m]).id == iv[m] by {
                if m < j {
                    assert(self@[before.len() + m] == prev[before.len() + m]);
                }
            }
            assert forall|m: int| 0 <= m < j + 1 implies #[trigger] self@[before.len() + m] == new_key_view(
                self@[before.len() + m].id,
                fv[m],
                provider@,
                now,
            ) by {
                if m < j {
                    assert(self@[before.len() + m] == prev[before.len() + m]);
                }
            }
            j = j + 1;
        }
        Ok(fresh.len())
    }

    /// The first key with this id, if any.
    pub fn get(&self, id: &str) -> (r: Option<ApiKey>)
        ensures
            match r {
                Some(k) => find_by_id(self@, id@) == Some(k@),
                None => find_by_id(self@, id@) is None,
            },
    {
        let ghost all = keys_view(self.keys@);
        let mut i: usize = 0;
        assert(all.subrange(0, all.len() as int) == all);
        while i < self.keys.len()
            invariant
                i <= self.keys.len(),
                all == keys_view(self.keys@),
                find_by_id(all, id@) == find_by_id(all.subrange(i as int, all.len() as int), id@),
            decreases self.keys.len() - i,
        {
            assert(all.subrange(i as int, all.len() as int).drop_first() == all.subrange(i + 1, all.len() as int));
            if same_text(self.keys[i].id.as_str(), id) {
                return Some(self.keys[i].duplicate());
            }
            i = i + 1;
        }
        None
    }

    /// Applies a queued update at time `now` to every key of its id.
    pub fn apply_update(&mut self, u: &StateUpdate, now: u64)
        requires
            old(self).wf(),
        ensures
            final(self).wf(),
            final(self)@ == apply_to_all(old(self)@, *u, now),
    {
        let ghost orig = self.keys@;
        let ghost ov = self@;
        let mut rest: Vec<ApiKey> = Vec::new();
        core::mem::swap(&mut rest, &mut self.keys);
        let n = rest.len();
        let mut done: usize = 0;
        let mut out: Vec<ApiKey> = Vec::new();
        while rest.len() > 0
            invariant
                n == orig.len(),
                done + rest.len() == n,
                rest@ == orig.subrange(done as int, orig.len() as int),
                keys_view(out@) == apply_to_all(keys_view(orig.subrange(0, done as int)), *u, now),
            decreases rest.len(),
        {
            let k = rest.remove(0);
            assert(rest@ == orig.subrange(done + 1, orig.len() as int));
            let nk = apply_to_key(k, u, now);
            let ghost before = out@;
            let ghost prefix = keys_view(orig.subrange(0, done as int));
            out.push(nk);
            assert(keys_view(out@) =~= keys_view(before).push(nk@));
            assert(keys_view(orig.subrange(0, done + 1)) =~= prefix.push(k@));
            assert(apply_to_all(prefix.push(k@), *u, now) =~= apply_to_all(prefix, *u, now).push(nk@));
            done = done + 1;
        }
        assert(orig.subrange(0, orig.len() as int) == orig);
        self.keys = out;
        proof {
            let fv = self@;
            assert(ov == keys_view(orig));
            assert forall|i: int| 0 <= i < fv.len() implies key_wf(#[trigger] fv[i]) && fv[i].id == ov[i].id by {
                lemma_update_keeps_wf(ov[i], *u, now);
            }
            assert forall|a: int, b: int| 0 <= a < b < fv.len() implies (#[trigger] fv[a]).id != (#[trigger] fv[b]).id by {
                assert(fv[a].id == ov[a].id && fv[b].id == ov[b].id);
            }
        }
    }

    /// Sets the status of the key with this id, outside the queue.
    pub fn set_status(&mut self, id: &str, status: ApiKeyStatus, now: u64)
        requires
            old(self).wf(),
        ensures
            final(self).wf(),
            final(self)@ == old(self)@.map_values(
                |k: KeyView|
                    if k.id == id@ {
                        status_applied(k, status, now)
                    } else {
                        k
                    },
            ),
    {
        let ghost ov = self@;
        let ghost f = |k: KeyView|
            if k.id == id@ {
                status_applied(k, status, now)
            } else {
                k
            };
        let mut i: usize = 0;
        let mut keys: Vec<ApiKey> = Vec::new();
        core::mem::swap(&mut keys, &mut self.keys);
        let n = keys.len();
        let mut out: Vec<ApiKey> = Vec::new();
        while i < n
            invariant
                i <= n,
                n == ov.len(),
                keys@.len() == n - i,
                forall|j: int| 0 <= j < keys@.len() ==> (#[trigger] keys@[j])@ == ov[i + j],
                out@.len() == i,
                forall|j: int|
                    0 <= j < i ==> (#[trigger] out@[j])@ == (if ov[j].id == id@ {
                        status_applied(ov[j], status, now)
                    } else {
                        ov[j]
                    }),
            decreases n - i,
        {
            let ghost prevk = keys@;
            let mut k = keys.remove(0);
            assert(k@ == ov[i as int]);
            assert forall|j: int| 0 <= j < keys@.len() implies (#[trigger] keys@[j])@ == ov[i + 1 + j] by {
                assert(keys@[j] == prevk[j + 1]);
            }
            if same_text(k.id.as_str(), id) {
                k.status = status;
                k.updated_at = now;
            }
            let ghost prevo = out@;
            out.push(k);
            assert forall|j: int| 0 <= j < i + 1 implies (#[trigger] out@[j])@ == (if ov[j].id == id@ {
                status_applied(ov[j], status, now)
            } else {
                ov[j]
            }) by {
                if j < i {
                    assert(out@[j] == prevo[j]);
                }
            }
            i = i + 1;
        }
        self.keys = out;
        proof {
            let fv = self@;
            assert(fv =~= ov.map_values(f));
            assert forall|a: int, b: int| 0 <= a < b < fv.len() implies (#[trigger] fv[a]).id != (#[trigger] fv[b]).id by {
                assert(fv[a].id == ov[a].id && fv[b].id == ov[b].id);
            }
            assert forall|x: int| 0 <= x < fv.len() implies key_wf(#[trigger] fv[x]) by {
                assert(fv[x].model_coolings == ov[x].model_coolings);
            }
        }
    }
}

/// Idempotence under redelivery: applying an update to a store that has
/// already taken it, at whatever later time, leaves the store as it was.
pub proof fn lemma_update_idempotent(keys: Seq<KeyView>, u: StateUpdate, first: u64, again: u64)
    ensures
        apply_to_all(apply_to_all(keys, u, first), u, again) == apply_to_all(keys, u, first),
{
    let once = apply_to_all(keys, u, first);
    let twice = apply_to_all(once, u, again);
    assert forall|i: int| 0 <= i < keys.len() implies #[trigger] twice[i] == once[i] by {
        let k = keys[i];
        if k.id == u.target() && !k.applied_updates.contains(u.ident()) {
            let marked = KeyView { applied_updates: k.applied_updates.push(u.ident()), ..k };
            assert(marked.applied_updates[marked.applied_updates.len() - 1] == u.ident());
            assert(once[i].applied_updates == marked.applied_updates);
            assert(once[i].id == k.id);
            assert(once[i].applied_updates.contains(u.ident()));
        }
    }
    assert(twice =~= once);
}


/// A key that takes a queued block is no longer a candidate of any
/// provider, so the next refresh of the cache leaves it out.
pub proof fn lemma_blocked_key_leaves_candidates(keys: Seq<KeyView>, u: StateUpdate, now: u64, provider: Seq<char>, j: int)
    requires
        u matches StateUpdate::SetStatus { status, .. } && status == ApiKeyStatus::Blocked,
        0 <= j < keys.len(),
        keys[j].id == u.target(),
        !keys[j].applied_updates.contains(u.ident()),
    ensures
        apply_to_all(keys, u, now)[j].status == ApiKeyStatus::Blocked,
        !candidates_of(apply_to_all(keys, u, now), provider).contains(apply_to_all(keys, u, now)[j]),
{
    broadcast use vstd::seq_lib::group_filter_ensures;

    let after = apply_to_all(keys, u, now);
    assert(after[j].status == ApiKeyStatus::Blocked);
    if provider.len() > 0 && active_of(after, provider).contains(after[j]) {
        let c = active_of(after, provider);
        let i = choose|i: int| 0 <= i < c.len() && c[i] == after[j];
        assert(c[i].status == ApiKeyStatus::Active);
    }
}

} // verus!
