//! The health score and the ranking of a provider's candidate keys.

use vstd::prelude::*;
use crate::record::{distinct_ids, keys_view, ApiKey, ApiKeyStatus, KeyView};

verus! {

/// A key with this many failures in a row is taken out of selection.
pub const CIRCUIT_BREAKER_FAILURES: u64 = 5;

/// A success this recent (in seconds) earns the recency bonus.
pub const RECENT_SUCCESS_WINDOW_SECS: u64 = 300;

/// The bonus for a recent success when `now` is the current time:
/// 10 when `now - last_succeeded_at < 300` (with a success in the future
/// counting as recent), else 0.
pub open spec fn recency_bonus(last_succeeded_at: u64, now: u64) -> int {
    if now < last_succeeded_at + 300 {
        10
    } else {
        0
    }
}

/// `(10000 - latency) + success (in thousandths) - 50 * failures + bonus`.
pub open spec fn score_of(key: KeyView, now: u64) -> int {
    (10000 - key.latency_ms) + key.success_permille - key.consecutive_failures * 50
        + recency_bonus(key.last_succeeded_at, now)
}

/// The circuit breaker and the status filter: a key may be ranked only when
/// it is active and has failed fewer than five times in a row.
pub open spec fn selectable(key: KeyView) -> bool {
    key.status == ApiKeyStatus::Active && key.consecutive_failures < 5
}

/// The keys that may be ranked, in their given order.
pub open spec fn selectable_keys(s: Seq<KeyView>) -> Seq<KeyView> {
    s.filter(|k: KeyView| selectable(k))
}

proof fn lemma_selectable_keys_push(s: Seq<KeyView>, k: KeyView)
    ensures
        selectable_keys(s.push(k)) == if selectable(k) {
            selectable_keys(s).push(k)
        } else {
            selectable_keys(s)
        },
{
    reveal(Seq::filter);
    assert(s.push(k).drop_last() == s);
    assert(s.push(k).last() == k);
}

/// Keys in descending order of score.
pub open spec fn sorted_by_score(s: Seq<KeyView>, now: u64) -> bool {
    forall|i: int, j: int| 0 <= i < j < s.len() ==> score_of(s[i], now) >= score_of(s[j], now)
}

/// The health score of a key at time `now`.
pub fn health_score(key: &ApiKey, now: u64) -> (r: i128)
    ensures
        r == score_of(key@, now),
{
    let bonus: i128 = if now.saturating_sub(key.last_succeeded_at) < RECENT_SUCCESS_WINDOW_SECS {
        10
    } else {
        0
    };
    (10000i128 - key.latency_ms as i128) + key.success_permille as i128
        - (key.consecutive_failures as i128) * 50 + bonus
}

/// Whether the circuit breaker and the status let this key be ranked.
pub fn is_selectable(key: &ApiKey) -> (r: bool)
    ensures
        r == selectable(key@),
{
    key.status == ApiKeyStatus::Active && key.consecutive_failures < CIRCUIT_BREAKER_FAILURES
}

/// `pos` gives, for each ranked key, its index among the first `upto`
/// `keys`: every selectable one of them is ranked, nothing else is, and
/// the ranking runs by descending score, then by ascending index.
pub open spec fn ranks_upto(keys: Seq<KeyView>, upto: int, ranked: Seq<KeyView>, pos: Seq<int>, now: u64) -> bool {
    &&& pos.len() == ranked.len()
    &&& forall|i: int|
        0 <= i < pos.len() ==> 0 <= #[trigger] pos[i] < upto && pos[i] < keys.len() && ranked[i] == keys[pos[i]]
            && selectable(keys[pos[i]])
    &&& forall|k: int| 0 <= k < upto && k < keys.len() && selectable(#[trigger] keys[k]) ==> exists|i: int| 0 <= i < pos.len() && pos[i] == k
    &&& forall|i: int, j: int|
        0 <= i < j < pos.len() ==> score_of(#[trigger] ranked[i], now) > score_of(#[trigger] ranked[j], now) || (
        score_of(ranked[i], now) == score_of(ranked[j], now) && pos[i] < pos[j])
}

/// `ranked` is the ranking of all `keys` at `now`, with `pos` giving each
/// ranked key's index in `keys`.
pub open spec fn ranks(keys: Seq<KeyView>, ranked: Seq<KeyView>, pos: Seq<int>, now: u64) -> bool {
    ranks_upto(keys, keys.len() as int, ranked, pos, now)
}

/// The first place in a list sorted by descending score whose key scores
/// below `s`: where a key of score `s` goes after all keys at least as good.
fn insert_position(out: &Vec<ApiKey>, s: i128, now: u64) -> (p: usize)
    requires
        sorted_by_score(keys_view(out@), now),
    ensures
        p <= out.len(),
        forall|i: int| 0 <= i < p ==> score_of(out@[i]@, now) >= s,
        p < out.len() ==> score_of(out@[p as int]@, now) < s,
{
    let mut p: usize = 0;
    while p < out.len() && health_score(&out[p], now) >= s
        invariant
            p <= out.len(),
            forall|i: int| 0 <= i < p ==> score_of(out@[i]@, now) >= s,
        decreases out.len() - p,
    {
        p = p + 1;
    }
    p
}

/// Ranks candidate keys: drops blocked and circuit-broken ones and sorts the
/// rest by descending score. The sort is stable, so keys of equal score keep
/// the order in which they were given.
pub fn get_healthy_sorted_keys(keys: Vec<ApiKey>, now: u64) -> (r: Vec<ApiKey>)
    ensures
        keys_view(r@).to_multiset() == selectable_keys(keys_view(keys@)).to_multiset(),
        sorted_by_score(keys_view(r@), now),
        exists|pos: Seq<int>| ranks(keys_view(keys@), keys_view(r@), pos, now),
{
    broadcast use vstd::seq_lib::to_multiset_insert, vstd::seq_lib::to_multiset_build, vstd::seq_lib::group_to_multiset_ensures;

    let ghost orig = keys@;
    let mut rest = keys;
    let n = rest.len();
    let mut out: Vec<ApiKey> = Vec::new();
    let mut done: usize = 0;
    let ghost ov = keys_view(orig);
    let ghost mut pos: Seq<int> = Seq::empty();
    proof {
        reveal(Seq::filter);
        assert(orig.subrange(0, 0) =~= Seq::<ApiKey>::empty());
        assert(keys_view(out@) =~= selectable_keys(keys_view(orig.subrange(0, 0))));
        assert(orig.subrange(0, orig.len() as int) =~= orig);
    }
    while rest.len() > 0
        invariant
            done + rest.len() == orig.len(),
            n == orig.len(),
            rest@ == orig.subrange(done as int, orig.len() as int),
            keys_view(out@).to_multiset() == selectable_keys(keys_view(orig.subrange(0, done as int))).to_multiset(),
            sorted_by_score(keys_view(out@), now),
            ov == keys_view(orig),
            ranks_upto(ov, done as int, keys_view(out@), pos, now),
        decreases rest.len(),
    {
        let k = rest.remove(0);
        assert(orig.subrange(0, done + 1) == orig.subrange(0, done as int).push(k));
        assert(orig.subrange(0, done + 1).drop_last() == orig.subrange(0, done as int));
        assert(rest@ == orig.subrange(done + 1, orig.len() as int));
        let ghost prev = selectable_keys(keys_view(orig.subrange(0, done as int)));
        proof {
            assert(keys_view(orig.subrange(0, done + 1)) =~= keys_view(orig.subrange(0, done as int)).push(k@));
            lemma_selectable_keys_push(keys_view(orig.subrange(0, done as int)), k@);
            vstd::seq_lib::to_multiset_build(prev, k@);
        }
        if is_selectable(&k) {
            let s = health_score(&k, now);
            let p = insert_position(&out, s, now);
            let ghost before = keys_view(out@);
            out.insert(p, k);
            assert(keys_view(out@) =~= before.insert(p as int, k@));
            proof {
                vstd::seq_lib::to_multiset_insert(before, p as int, k@);
            }
            assert(keys_view(out@).to_multiset() == selectable_keys(keys_view(orig.subrange(0, done + 1))).to_multiset());
            let ghost after = keys_view(out@);
            assert forall|i: int, j: int| 0 <= i < j < after.len() implies score_of(after[i], now)
                >= score_of(after[j], now) by {
                if p < before.len() {
                    assert(score_of(before[p as int], now) < s);
                }
                if i < p && j > p {
                    assert(score_of(before[j - 1], now) <= s);
                }
            }
            proof {
                let old_pos = pos;
                pos = old_pos.insert(p as int, done as int);
                assert(ov[done as int] == k@);
                assert forall|i: int| 0 <= i < pos.len() implies 0 <= #[trigger] pos[i] < done + 1 && pos[i]
                    < ov.len() && after[i] == ov[pos[i]] && selectable(ov[pos[i]]) by {
                    if i < p {
                        assert(pos[i] == old_pos[i]);
                        assert(after[i] == before[i]);
                    } else if i > p {
                        assert(pos[i] == old_pos[i - 1]);
                        assert(after[i] == before[i - 1]);
                    }
                }
                assert forall|kk: int| 0 <= kk < done + 1 && kk < ov.len() && selectable(#[trigger] ov[kk]) implies exists|i: int|
                    0 <= i < pos.len() && pos[i] == kk by {
                    if kk == done {
                        assert(pos[p as int] == kk);
                    } else {
                        let i0 = choose|i: int| 0 <= i < old_pos.len() && old_pos[i] == kk;
                        if i0 < p {
                            assert(pos[i0] == kk);
                        } else {
                            assert(pos[i0 + 1] == kk);
                        }
                    }
                }
                assert forall|i: int, j: int| 0 <= i < j < pos.len() implies score_of(#[trigger] after[i], now)
                    > score_of(#[trigger] after[j], now) || (score_of(after[i], now) == score_of(after[j], now)
                    && pos[i] < pos[j]) by {
                    if j < p {
                        assert(after[i] == before[i] && after[j] == before[j]);
                        assert(pos[i] == old_pos[i] && pos[j] == old_pos[j]);
                    } else if i > p {
                        assert(after[i] == before[i - 1] && after[j] == before[j - 1]);
                        assert(pos[i] == old_pos[i - 1] && pos[j] == old_pos[j - 1]);
                    } else if i < p && j > p {
                        assert(after[i] == before[i] && after[j] == before[j - 1]);
                        assert(pos[i] == old_pos[i] && pos[j] == old_pos[j - 1]);
                        assert(score_of(before[j - 1], now) < s);
                    } else if i == p {
                        assert(after[j] == before[j - 1]);
                        assert(score_of(before[j - 1], now) < s);
                    } else {
                        assert(j == p);
                        assert(after[i] == before[i]);
                        assert(pos[i] == old_pos[i]);
                        assert(pos[i] < done);
                    }
                }
            }
        } else {
            proof {
                assert forall|kk: int| 0 <= kk < done + 1 && kk < ov.len() && selectable(#[trigger] ov[kk]) implies exists|i: int|
                    0 <= i < pos.len() && pos[i] == kk by {
                    assert(kk != done);
                }
            }
        }
        done = done + 1;
    }
    assert(orig.subrange(0, orig.len() as int) == orig);
    assert(ranks(ov, keys_view(out@), pos, now));
    out
}


/// Circuit breaker: a ranking never holds a key that has failed five or more
/// times in a row, nor a blocked key.
pub proof fn lemma_ranking_excludes_unselectable(keys: Seq<KeyView>, ranked: Seq<KeyView>, i: int)
    requires
        ranked.to_multiset() == selectable_keys(keys).to_multiset(),
        0 <= i < ranked.len(),
    ensures
        ranked[i].consecutive_failures < 5,
        ranked[i].status == ApiKeyStatus::Active,
{
    broadcast use vstd::seq_lib::group_to_multiset_ensures, vstd::seq_lib::group_filter_ensures;

    let k = ranked[i];
    assert(ranked.contains(k));
    assert(ranked.to_multiset().count(k) > 0);
    assert(selectable_keys(keys).contains(k));
}

/// Circuit breaker, by id: where keys have distinct ids, no ranked key
/// bears the id of a key that is blocked or has failed five or more times
/// in a row.
pub proof fn lemma_ranking_excludes_unselectable_ids(
    keys: Seq<KeyView>,
    ranked: Seq<KeyView>,
    pos: Seq<int>,
    now: u64,
    k: int,
    i: int,
)
    requires
        ranks(keys, ranked, pos, now),
        distinct_ids(keys),
        0 <= k < keys.len(),
        !selectable(keys[k]),
        0 <= i < ranked.len(),
    ensures
        ranked[i].id != keys[k].id,
{
    let p = pos[i];
    assert(ranked[i] == keys[p] && selectable(keys[p]));
    if p < k {
        assert(keys[p].id != keys[k].id);
    } else if p > k {
        assert(keys[k].id != keys[p].id);
    }
}

/// The score falls as latency rises, the other fields held fixed.
pub proof fn lemma_score_decreasing_in_latency(a: KeyView, b: KeyView, now: u64)
    requires
        b == (KeyView { latency_ms: b.latency_ms, ..a }),
        a.latency_ms < b.latency_ms,
    ensures
        score_of(a, now) > score_of(b, now),
{
}

/// The score falls as failures in a row mount, the other fields held fixed.
pub proof fn lemma_score_decreasing_in_failures(a: KeyView, b: KeyView, now: u64)
    requires
        b == (KeyView { consecutive_failures: b.consecutive_failures, ..a }),
        a.consecutive_failures < b.consecutive_failures,
    ensures
        score_of(a, now) > score_of(b, now),
{
}

/// The score rises with the success rate, the other fields held fixed.
pub proof fn lemma_score_increasing_in_success(a: KeyView, b: KeyView, now: u64)
    requires
        b == (KeyView { success_permille: b.success_permille, ..a }),
        a.success_permille < b.success_permille,
    ensures
        score_of(a, now) < score_of(b, now),
{
}

} // verus!
