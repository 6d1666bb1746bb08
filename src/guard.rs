//! The cooldown guard: a process-local, time-bounded veto on keys that
//! just failed, kept by key id alone.

use vstd::prelude::*;
use crate::record::same_text;

verus! {

/// One vetoed key and the instant (in seconds) from which it is usable again.
#[derive(Debug)]
pub struct GuardEntry {
    pub key_id: String,
    pub until: u128,
}

/// The set of keys that are cooling, each with the end of its cooldown.
/// A key id appears at most once.
#[derive(Debug)]
pub struct CooldownGuard {
    entries: Vec<GuardEntry>,
}

/// The end of the cooldown held for `id`: the first entry for it.
pub open spec fn until_in(entries: Seq<GuardEntry>, id: Seq<char>) -> Option<int>
    decreases entries.len(),
{
    if entries.len() == 0 {
        None
    } else if entries[0].key_id@ == id {
        Some(entries[0].until as int)
    } else {
        until_in(entries.drop_first(), id)
    }
}

proof fn lemma_until_in_push(s: Seq<GuardEntry>, e: GuardEntry, id: Seq<char>)
    ensures
        until_in(s.push(e), id) == match until_in(s, id) {
            Some(u) => Some(u),
            None => if e.key_id@ == id {
                Some(e.until as int)
            } else {
                None
            },
        },
    decreases s.len(),
{
    if s.len() > 0 {
        assert(s.push(e).drop_first() == s.drop_first().push(e));
        lemma_until_in_push(s.drop_first(), e, id);
    } else {
        assert(s.push(e).drop_first() == s);
    }
}

/// No two entries are for the same key.
pub open spec fn distinct_ids(entries: Seq<GuardEntry>) -> bool {
    forall|a: int, b: int| 0 <= a < b < entries.len() ==> (#[trigger] entries[a]).key_id@ != (#[trigger] entries[b]).key_id@
}

proof fn lemma_until_in_absent(s: Seq<GuardEntry>, id: Seq<char>)
    requires
        forall|j: int| 0 <= j < s.len() ==> (#[trigger] s[j]).key_id@ != id,
    ensures
        until_in(s, id) is None,
    decreases s.len(),
{
    if s.len() > 0 {
        assert forall|j: int| 0 <= j < s.drop_first().len() implies (#[trigger] s.drop_first()[j]).key_id@ != id by {
            assert(s.drop_first()[j] == s[j + 1]);
        }
        lemma_until_in_absent(s.drop_first(), id);
    }
}

impl CooldownGuard {
    /// No key has two entries.
    pub closed spec fn wf(&self) -> bool {
        distinct_ids(self.entries@)
    }

    /// The end of the cooldown of `id`, if it was ever flagged.
    pub closed spec fn until_of(&self, id: Seq<char>) -> Option<int> {
        until_in(self.entries@, id)
    }

    /// Whether `id` is cooling at time `now`.
    pub open spec fn cooling(&self, id: Seq<char>, now: u64) -> bool {
        match self.until_of(id) {
            Some(u) => now < u,
            None => false,
        }
    }

    /// What `flag(id, d, t)` leaves: `id` cools until `t + d`, every other
    /// key as before.
    pub open spec fn flagged_from(&self, before: CooldownGuard, id: Seq<char>, d: u64, t: u64) -> bool {
        &&& self.until_of(id) == Some(t + d)
        &&& forall|other: Seq<char>| other != id ==> #[trigger] self.until_of(other) == before.until_of(other)
    }

    /// A guard in which no key is cooling.
    pub fn new() -> (r: CooldownGuard)
        ensures
            r.wf(),
            forall|id: Seq<char>| #[trigger] r.until_of(id) == None::<int>,
    {
        CooldownGuard { entries: Vec::new() }
    }

    /// Vetoes `key_id` for `duration_secs` from `now`, replacing any earlier
    /// veto of it.
    pub fn flag(&mut self, key_id: &str, duration_secs: u64, now: u64)
        requires
            old(self).wf(),
        ensures
            final(self).wf(),
            final(self).flagged_from(*old(self), key_id@, duration_secs, now),
    {
        let ghost old_entries = self.entries@;
        let mut kept: Vec<GuardEntry> = Vec::new();
        let mut i: usize = 0;
        while i < self.entries.len()
            invariant
                i <= self.entries.len(),
                self.entries@ == old_entries,
                distinct_ids(old_entries),
                distinct_ids(kept@),
                forall|a: int| 0 <= a < kept@.len() ==> (#[trigger] kept@[a]).key_id@ != key_id@,
                forall|a: int| 0 <= a < kept@.len() ==> exists|j: int| 0 <= j < i && #[trigger] kept@[a] == old_entries[j],
                until_in(kept@, key_id@) == None::<int>,
                forall|other: Seq<char>|
                    other != key_id@ ==> #[trigger] until_in(kept@, other) == until_in(
                        old_entries.subrange(0, i as int),
                        other,
                    ),
            decreases self.entries.len() - i,
        {
            let ghost prefix = old_entries.subrange(0, i as int);
            assert(old_entries.subrange(0, i + 1) == prefix.push(old_entries[i as int]));
            let keep = !same_text(self.entries[i].key_id.as_str(), key_id);
            let ghost before = kept@;
            if keep {
                let e = GuardEntry { key_id: self.entries[i].key_id.clone(), until: self.entries[i].until };
                kept.push(e);
                proof {
                    assert(e == old_entries[i as int]);
                    assert forall|a: int, b: int| 0 <= a < b < kept@.len() implies (#[trigger] kept@[a]).key_id@
                        != (#[trigger] kept@[b]).key_id@ by {
                        if b == kept@.len() - 1 {
                            assert(kept@[a] == before[a]);
                            let j = choose|j: int| 0 <= j < i && before[a] == old_entries[j];
                            assert(old_entries[j].key_id@ != old_entries[i as int].key_id@);
                        } else {
                            assert(kept@[a] == before[a] && kept@[b] == before[b]);
                        }
                    }
                    assert forall|a: int| 0 <= a < kept@.len() implies exists|j: int|
                        0 <= j < i + 1 && #[trigger] kept@[a] == old_entries[j] by {
                        if a < before.len() {
                            assert(kept@[a] == before[a]);
                            let j = choose|j: int| 0 <= j < i && before[a] == old_entries[j];
                            assert(kept@[a] == old_entries[j]);
                        } else {
                            assert(kept@[a] == old_entries[i as int]);
                        }
                    }
                }
            }
            proof {
                assert forall|other: Seq<char>| other != key_id@ implies #[trigger] until_in(kept@, other)
                    == until_in(old_entries.subrange(0, i + 1), other) by {
                    lemma_until_in_push(prefix, old_entries[i as int], other);
                    if keep {
                        lemma_until_in_push(before, old_entries[i as int], other);
                    }
                }
                if keep {
                    lemma_until_in_push(before, old_entries[i as int], key_id@);
                }
            }
            i = i + 1;
        }
        let first = GuardEntry { key_id: String::from_str(key_id), until: now as u128 + duration_secs as u128 };
        let ghost rest = kept@;
        kept.insert(0, first);
        proof {
            assert(kept@.drop_first() == rest);
            assert(old_entries.subrange(0, old_entries.len() as int) == old_entries);
            assert forall|a: int, b: int| 0 <= a < b < kept@.len() implies (#[trigger] kept@[a]).key_id@
                != (#[trigger] kept@[b]).key_id@ by {
                assert(kept@[b] == rest[b - 1]);
                if a > 0 {
                    assert(kept@[a] == rest[a - 1]);
                }
            }
            assert(until_in(kept@, key_id@) == Some(now + duration_secs));
            assert forall|other: Seq<char>| other != key_id@ implies #[trigger] until_in(kept@, other)
                == until_in(old_entries, other) by {
                assert(until_in(kept@, other) == until_in(rest, other));
            }
        }
        self.entries = kept;
    }

    /// Drops the vetoes that have ended by `now`; what the guard says of any
    /// instant from `now` on stays the same.
    pub fn purge_expired(&mut self, now: u64)
        requires
            old(self).wf(),
        ensures
            final(self).wf(),
            forall|id: Seq<char>|
                #[trigger] final(self).until_of(id) == match old(self).until_of(id) {
                    Some(u) => if u > now {
                        Some(u)
                    } else {
                        None
                    },
                    None => None,
                },
    {
        let ghost old_entries = self.entries@;
        let mut kept: Vec<GuardEntry> = Vec::new();
        let mut i: usize = 0;
        while i < self.entries.len()
            invariant
                i <= self.entries.len(),
                self.entries@ == old_entries,
                distinct_ids(old_entries),
                distinct_ids(kept@),
                forall|a: int| 0 <= a < kept@.len() ==> exists|j: int| 0 <= j < i && #[trigger] kept@[a] == old_entries[j],
                forall|id: Seq<char>|
                    #[trigger] until_in(kept@, id) == match until_in(old_entries.subrange(0, i as int), id) {
                        Some(u) => if u > now {
                            Some(u)
                        } else {
                            None
                        },
                        None => None,
                    },
            decreases self.entries.len() - i,
        {
            let ghost prefix = old_entries.subrange(0, i as int);
            let ghost e0 = old_entries[i as int];
            assert(old_entries.subrange(0, i + 1) == prefix.push(e0));
            let keep = self.entries[i].until > now as u128;
            let ghost before = kept@;
            proof {
                assert forall|j: int| 0 <= j < prefix.len() implies (#[trigger] prefix[j]).key_id@ != e0.key_id@ by {
                    assert(prefix[j] == old_entries[j]);
                }
                lemma_until_in_absent(prefix, e0.key_id@);
                assert forall|a: int| 0 <= a < before.len() implies (#[trigger] before[a]).key_id@ != e0.key_id@ by {
                    let j = choose|j: int| 0 <= j < i && before[a] == old_entries[j];
                }
            }
            if keep {
                let e = GuardEntry { key_id: self.entries[i].key_id.clone(), until: self.entries[i].until };
                kept.push(e);
                proof {
                    assert(e == e0);
                    assert forall|a: int, b: int| 0 <= a < b < kept@.len() implies (#[trigger] kept@[a]).key_id@
                        != (#[trigger] kept@[b]).key_id@ by {
                        assert(kept@[a] == before[a]);
                        if b < before.len() {
                            assert(kept@[b] == before[b]);
                        }
                    }
                    assert forall|a: int| 0 <= a < kept@.len() implies exists|j: int|
                        0 <= j < i + 1 && #[trigger] kept@[a] == old_entries[j] by {
                        if a < before.len() {
                            assert(kept@[a] == before[a]);
                            let j = choose|j: int| 0 <= j < i && before[a] == old_entries[j];
                            assert(kept@[a] == old_entries[j]);
                        } else {
                            assert(kept@[a] == old_entries[i as int]);
                        }
                    }
                }
            }
            proof {
                lemma_until_in_absent(before, e0.key_id@);
                assert forall|id: Seq<char>| #[trigger] until_in(kept@, id) == match until_in(old_entries.subrange(0, i + 1), id) {
                    Some(u) => if u > now {
                        Some(u)
                    } else {
                        None
                    },
                    None => None,
                } by {
                    lemma_until_in_push(prefix, e0, id);
                    if keep {
                        lemma_until_in_push(before, e0, id);
                    }
                }
            }
            i = i + 1;
        }
        proof {
            assert(old_entries.subrange(0, old_entries.len() as int) == old_entries);
        }
        self.entries = kept;
    }

    /// Whether `key_id` is cooling at time `now`.
    pub fn is_cooling(&self, key_id: &str, now: u64) -> (r: bool)
        ensures
            r == self.cooling(key_id@, now),
    {
        let mut i: usize = 0;
        let ghost es = self.entries@;
        assert(es.subrange(0, es.len() as int) == es);
        while i < self.entries.len()
            invariant
                i <= es.len(),
                es == self.entries@,
                until_in(es, key_id@) == until_in(es.subrange(i as int, es.len() as int), key_id@),
            decreases self.entries.len() - i,
        {
            assert(es.subrange(i as int, es.len() as int).drop_first() == es.subrange(i + 1, es.len() as int));
            if same_text(self.entries[i].key_id.as_str(), key_id) {
                return (now as u128) < self.entries[i].until;
            }
            i = i + 1;
        }
        false
    }
}

/// Flags a key in the guard for `duration_seconds` from `now`, so that the
/// next selection in this process skips it.
pub fn flag_key_with_cooldown(guard: &mut CooldownGuard, key_id: &str, duration_seconds: u64, now: u64)
    requires
        old(guard).wf(),
    ensures
        final(guard).wf(),
        final(guard).flagged_from(*old(guard), key_id@, duration_seconds, now),
{
    guard.flag(key_id, duration_seconds, now);
}

/// A key flagged with duration `d` at time `t` is cooling at every instant
/// of `[t, t + d)` and at none from `t + d` on.
pub proof fn lemma_flag_window(before: CooldownGuard, after: CooldownGuard, id: Seq<char>, d: u64, t: u64, now: u64)
    requires
        after.flagged_from(before, id, d, t),
        t <= now,
    ensures
        now < t + d ==> after.cooling(id, now),
        now >= t + d ==> !after.cooling(id, now),
{
}

} // verus!
