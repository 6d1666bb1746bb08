//! The key record and the small text helpers that the rest of the library
//! uses to compare identifiers.

use vstd::prelude::*;

verus! {

/// Whether a key may be selected at all. Blocked keys never are.
#[derive(Clone, Copy, Debug, PartialEq, Eq, Structural)]
pub enum ApiKeyStatus {
    Active,
    Blocked,
}

/// The cooldown of one key for one model: when it ends, and how many
/// seconds of cooldown that model has put on the key so far.
#[derive(Debug)]
pub struct ModelCooling {
    pub model: String,
    pub total_seconds: u64,
    pub end_at: u64,
}

/// One credential of a provider, with its health metrics.
///
/// `success_permille` is the moving average of successes, in thousandths
/// (1000 means every recent attempt succeeded). `applied_updates` holds the
/// identities of the queued updates already applied to the key.
#[derive(Debug)]
pub struct ApiKey {
    pub id: String,
    pub key: String,
    pub provider: String,
    pub status: ApiKeyStatus,
    pub model_coolings: Vec<ModelCooling>,
    pub total_cooling_seconds: u64,
    pub created_at: u64,
    pub updated_at: u64,
    pub latency_ms: u64,
    pub success_permille: u64,
    pub consecutive_failures: u64,
    pub last_checked_at: u64,
    pub last_succeeded_at: u64,
    pub applied_updates: Vec<u64>,
}

/// What a cooldown entry says, as plain values.
pub struct CoolingView {
    pub model: Seq<char>,
    pub total_seconds: u64,
    pub end_at: u64,
}

/// What a key record says, as plain values.
pub struct KeyView {
    pub id: Seq<char>,
    pub key: Seq<char>,
    pub provider: Seq<char>,
    pub status: ApiKeyStatus,
    pub model_coolings: Seq<CoolingView>,
    pub total_cooling_seconds: u64,
    pub created_at: u64,
    pub updated_at: u64,
    pub latency_ms: u64,
    pub success_permille: u64,
    pub consecutive_failures: u64,
    pub last_checked_at: u64,
    pub last_succeeded_at: u64,
    pub applied_updates: Seq<u64>,
}

impl View for ModelCooling {
    type V = CoolingView;

    open spec fn view(&self) -> CoolingView {
        CoolingView { model: self.model@, total_seconds: self.total_seconds, end_at: self.end_at }
    }
}

/// The views of a list of cooldown entries.
pub open spec fn coolings_view(s: Seq<ModelCooling>) -> Seq<CoolingView> {
    s.map_values(|c: ModelCooling| c@)
}

impl View for ApiKey {
    type V = KeyView;

    open spec fn view(&self) -> KeyView {
        KeyView {
            id: self.id@,
            key: self.key@,
            provider: self.provider@,
            status: self.status,
            model_coolings: coolings_view(self.model_coolings@),
            total_cooling_seconds: self.total_cooling_seconds,
            created_at: self.created_at,
            updated_at: self.updated_at,
            latency_ms: self.latency_ms,
            success_permille: self.success_permille,
            consecutive_failures: self.consecutive_failures,
            last_checked_at: self.last_checked_at,
            last_succeeded_at: self.last_succeeded_at,
            applied_updates: self.applied_updates@,
        }
    }
}

/// The views of a list of keys.
pub open spec fn keys_view(s: Seq<ApiKey>) -> Seq<KeyView> {
    s.map_values(|k: ApiKey| k@)
}

/// The end of the cooldown recorded for `model`: the first entry for it.
pub open spec fn cooldown_end_in(coolings: Seq<CoolingView>, model: Seq<char>) -> Option<u64>
    decreases coolings.len(),
{
    if coolings.len() == 0 {
        None
    } else if coolings[0].model == model {
        Some(coolings[0].end_at)
    } else {
        cooldown_end_in(coolings.drop_first(), model)
    }
}

/// No two keys share an id.
pub open spec fn distinct_ids(keys: Seq<KeyView>) -> bool {
    forall|a: int, b: int| 0 <= a < b < keys.len() ==> (#[trigger] keys[a]).id != (#[trigger] keys[b]).id
}

/// No model has two cooldown entries.
pub open spec fn distinct_models(cs: Seq<CoolingView>) -> bool {
    forall|a: int, b: int| 0 <= a < b < cs.len() ==> (#[trigger] cs[a]).model != (#[trigger] cs[b]).model
}

/// A well-formed key record: each model has at most one cooldown entry.
pub open spec fn key_wf(k: KeyView) -> bool {
    distinct_models(k.model_coolings)
}

/// A key is cooling for `model` at `now` while its recorded end lies ahead.
pub open spec fn cooling_for_model(key: KeyView, model: Seq<char>, now: u64) -> bool {
    match cooldown_end_in(key.model_coolings, model) {
        Some(end) => now < end,
        None => false,
    }
}

/// Filtering a sequence with one more element at its end.
pub(crate) proof fn lemma_filter_push<A>(s: Seq<A>, a: A, pred: spec_fn(A) -> bool)
    ensures
        s.push(a).filter(pred) == if pred(a) {
            s.filter(pred).push(a)
        } else {
            s.filter(pred)
        },
{
    reveal(Seq::filter);
    assert(s.push(a).drop_last() == s);
    assert(s.push(a).last() == a);
}

/// Compares two texts character by character.
pub fn same_text(a: &str, b: &str) -> (r: bool)
    ensures
        r == (a@ == b@),
{
    let x = String::from_str(a);
    let y = String::from_str(b);
    x == y
}

impl ModelCooling {
    /// A field-by-field copy.
    pub fn duplicate(&self) -> (r: ModelCooling)
        ensures
            r@ == self@,
    {
        ModelCooling { model: self.model.clone(), total_seconds: self.total_seconds, end_at: self.end_at }
    }
}

/// A copy of a list of update identities.
pub fn copy_ids(v: &Vec<u64>) -> (r: Vec<u64>)
    ensures
        r@ == v@,
{
    let mut r: Vec<u64> = Vec::new();
    let mut i: usize = 0;
    while i < v.len()
        invariant
            i <= v.len(),
            r@ == v@.subrange(0, i as int),
        decreases v.len() - i,
    {
        r.push(v[i]);
        i = i + 1;
        assert(r@ =~= v@.subrange(0, i as int));
    }
    assert(v@.subrange(0, v.len() as int) =~= v@);
    r
}

/// A copy of a list of cooldowns, entry by entry.
pub fn duplicate_coolings(v: &Vec<ModelCooling>) -> (r: Vec<ModelCooling>)
    ensures
        coolings_view(r@) == coolings_view(v@),
{
    let mut r: Vec<ModelCooling> = Vec::new();
    let mut i: usize = 0;
    while i < v.len()
        invariant
            i <= v.len(),
            coolings_view(r@) == coolings_view(v@.subrange(0, i as int)),
        decreases v.len() - i,
    {
        let c = v[i].duplicate();
        proof {
            assert(coolings_view(r@.push(c)) =~= coolings_view(r@).push(c@));
            assert(coolings_view(v@.subrange(0, i + 1)) =~= coolings_view(v@.subrange(0, i as int)).push(v@[i as int]@));
        }
        r.push(c);
        i = i + 1;
    }
    assert(v@.subrange(0, v.len() as int) == v@);
    r
}

impl ApiKey {
    /// A new active key, created at `now`: no cooldowns, no latency yet, a
    /// perfect success average and no failures.
    pub fn new(id: &str, key: &str, provider: &str, now: u64) -> (r: ApiKey)
        ensures
            r@ == (KeyView {
                id: id@,
                key: key@,
                provider: provider@,
                status: ApiKeyStatus::Active,
                model_coolings: Seq::empty(),
                total_cooling_seconds: 0,
                created_at: now,
                updated_at: now,
                latency_ms: 0,
                success_permille: 1000,
                consecutive_failures: 0,
                last_checked_at: 0,
                last_succeeded_at: 0,
                applied_updates: Seq::empty(),
            }),
    {
        let r = ApiKey {
            id: String::from_str(id),
            key: String::from_str(key),
            provider: String::from_str(provider),
            status: ApiKeyStatus::Active,
            model_coolings: Vec::new(),
            total_cooling_seconds: 0,
            created_at: now,
            updated_at: now,
            latency_ms: 0,
            success_permille: 1000,
            consecutive_failures: 0,
            last_checked_at: 0,
            last_succeeded_at: 0,
            applied_updates: Vec::new(),
        };
        assert(coolings_view(r.model_coolings@) =~= Seq::empty());
        r
    }

    /// A field-by-field copy.
    pub fn duplicate(&self) -> (r: ApiKey)
        ensures
            r@ == self@,
    {
        ApiKey {
            id: self.id.clone(),
            key: self.key.clone(),
            provider: self.provider.clone(),
            status: self.status,
            model_coolings: duplicate_coolings(&self.model_coolings),
            total_cooling_seconds: self.total_cooling_seconds,
            created_at: self.created_at,
            updated_at: self.updated_at,
            latency_ms: self.latency_ms,
            success_permille: self.success_permille,
            consecutive_failures: self.consecutive_failures,
            last_checked_at: self.last_checked_at,
            last_succeeded_at: self.last_succeeded_at,
            applied_updates: copy_ids(&self.applied_updates),
        }
    }

    /// The end of this key's cooldown for `model`, if one was ever recorded.
    pub fn get_cooldown_end(&self, model: &str) -> (r: Option<u64>)
        ensures
            r == cooldown_end_in(self@.model_coolings, model@),
    {
        let ghost cs = self@.model_coolings;
        assert(cs.subrange(0, cs.len() as int) == cs);
        let mut i: usize = 0;
        while i < self.model_coolings.len()
            invariant
                i <= self.model_coolings.len(),
                cs == coolings_view(self.model_coolings@),
                cooldown_end_in(cs, model@) == cooldown_end_in(
                    cs.subrange(i as int, cs.len() as int),
                    model@,
                ),
            decreases self.model_coolings.len() - i,
        {
            let ghost rest = cs.subrange(i as int, cs.len() as int);
            assert(rest.drop_first() == cs.subrange(i + 1, cs.len() as int));
            if same_text(self.model_coolings[i].model.as_str(), model) {
                return Some(self.model_coolings[i].end_at);
            }
            i = i + 1;
        }
        None
    }

    /// Whether this key is still cooling for `model` at `now`.
    pub fn is_cooling_for_model(&self, model: &str, now: u64) -> (r: bool)
        ensures
            r == cooling_for_model(self@, model@, now),
    {
        match self.get_cooldown_end(model) {
            Some(end) => now < end,
            None => false,
        }
    }
}

/// A copy of a list of keys, key by key.
pub fn duplicate_keys(v: &Vec<ApiKey>) -> (r: Vec<ApiKey>)
    ensures
        keys_view(r@) == keys_view(v@),
{
    let mut r: Vec<ApiKey> = Vec::new();
    let mut i: usize = 0;
    while i < v.len()
        invariant
            i <= v.len(),
            keys_view(r@) == keys_view(v@.subrange(0, i as int)),
        decreases v.len() - i,
    {
        let k = v[i].duplicate();
        proof {
            assert(keys_view(r@.push(k)) =~= keys_view(r@).push(k@));
            assert(keys_view(v@.subrange(0, i + 1)) =~= keys_view(v@.subrange(0, i as int)).push(v@[i as int]@));
        }
        r.push(k);
        i = i + 1;
    }
    assert(v@.subrange(0, v.len() as int) == v@);
    r
}

} // verus!
