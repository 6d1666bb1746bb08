//! The failover engine: walks a provider's ranked candidates for one
//! request, skipping cooling keys, and turns each attempt's outcome into
//! the next step, the fast in-memory vetoes and the queued durable update.
//!
//! The engine decides; its caller performs. The caller asks for the next
//! action, makes the upstream call that an `Attempt` names (through the
//! retry controller), and hands the outcome back.

use vstd::prelude::*;
use crate::cache::HealthCache;
use crate::classifier::ErrorAnalysis;
use crate::guard::CooldownGuard;
use crate::queue::StateUpdate;
use crate::record::{cooling_for_model, keys_view, ApiKey, ApiKeyStatus, KeyView};

verus! {

/// Status of the reply when no key could be tried.
pub const NO_KEYS_STATUS: u16 = 503;

/// Status of the reply when every tried key failed.
pub const ALL_KEYS_FAILED_STATUS: u16 = 500;

/// Status of the reply when the request ran out of time.
pub const TIMEOUT_STATUS: u16 = 504;

/// What the caller does next.
#[derive(Clone, Copy, Debug, PartialEq, Eq, Structural)]
pub enum EngineAction {
    /// Call the provider with candidate `index`, through the retry controller.
    Attempt { index: usize },
    /// Return the upstream success response as it is.
    ReturnSuccess,
    /// Return the last upstream error body as it is, with this status.
    ReturnUpstreamError { status: u16 },
    /// No candidate could be tried: "no keys available".
    ReturnNoKeysAvailable,
    /// Every tried key failed: "all keys failed".
    ReturnAllKeysFailed,
    /// The request's time budget ran out before another attempt.
    ReturnTimeout,
}

/// What a failed attempt leads to: a reply now (for a caller's error), and
/// the update to queue for the durable store, if any.
#[derive(Debug)]
pub struct FailureStep {
    pub reply: Option<EngineAction>,
    pub update: Option<StateUpdate>,
}

/// A candidate may be tried at `now` unless the guard vetoes it or it still
/// cools for the request's model.
pub open spec fn usable(k: KeyView, guard: CooldownGuard, model: Seq<char>, now: u64) -> bool {
    !guard.cooling(k.id, now) && !cooling_for_model(k, model, now)
}

/// The state of one request's walk over its candidates.
#[derive(Debug)]
pub struct FailoverEngine {
    candidates: Vec<ApiKey>,
    provider: String,
    model: String,
    deadline: u64,
    next: usize,
    attempts: usize,
    last_status: u16,
    last_was_cooldown: bool,
}

impl FailoverEngine {
    /// The ranked candidates.
    pub closed spec fn candidates(&self) -> Seq<KeyView> {
        keys_view(self.candidates@)
    }

    /// The provider of the request.
    pub closed spec fn provider(&self) -> Seq<char> {
        self.provider@
    }

    /// The model of the request.
    pub closed spec fn model(&self) -> Seq<char> {
        self.model@
    }

    /// The time from which no new attempt starts.
    pub closed spec fn deadline(&self) -> u64 {
        self.deadline
    }

    /// The first candidate not yet looked at.
    pub closed spec fn next(&self) -> nat {
        self.next as nat
    }

    /// How many candidates were tried.
    pub closed spec fn attempts(&self) -> nat {
        self.attempts as nat
    }

    /// The status of the last failure.
    pub closed spec fn last_status(&self) -> u16 {
        self.last_status
    }

    /// Whether the last failure was a rate limit.
    pub closed spec fn last_was_cooldown(&self) -> bool {
        self.last_was_cooldown
    }

    /// The engine's invariant: the walk never passes the end of the list.
    pub closed spec fn wf(&self) -> bool {
        self.next <= self.candidates@.len() && self.attempts <= self.next
    }

    /// Starts a walk over `candidates` for a request on `model` of
    /// `provider`, which must end by `deadline`.
    pub fn new(candidates: Vec<ApiKey>, provider: &str, model: &str, deadline: u64) -> (r: FailoverEngine)
        ensures
            r.wf(),
            r.candidates() == keys_view(candidates@),
            r.provider() == provider@,
            r.model() == model@,
            r.deadline() == deadline,
            r.next() == 0,
            r.attempts() == 0,
            r.last_status() == NO_KEYS_STATUS,
            !r.last_was_cooldown(),
    {
        FailoverEngine {
            candidates,
            provider: String::from_str(provider),
            model: String::from_str(model),
            deadline,
            next: 0,
            attempts: 0,
            last_status: NO_KEYS_STATUS,
            last_was_cooldown: false,
        }
    }

    /// The number of candidates.
    pub fn candidate_count(&self) -> (r: usize)
        ensures
            r == self.candidates().len(),
    {
        self.candidates.len()
    }

    /// The candidate at `index`.
    pub fn candidate(&self, index: usize) -> (r: &ApiKey)
        requires
            index < self.candidates().len(),
        ensures
            r@ == self.candidates()[index as int],
    {
        &self.candidates[index]
    }

    /// The next step at `now`: the first usable candidate from the current
    /// position; when none is left, the reply that ends the request.
    pub fn next_action(&mut self, guard: &CooldownGuard, now: u64) -> (r: EngineAction)
        requires
            old(self).wf(),
        ensures
            final(self).wf(),
            final(self).candidates() == old(self).candidates(),
            final(self).provider() == old(self).provider(),
            final(self).model() == old(self).model(),
            final(self).deadline() == old(self).deadline(),
            final(self).attempts() == old(self).attempts(),
            final(self).last_status() == old(self).last_status(),
            final(self).last_was_cooldown() == old(self).last_was_cooldown(),
            now >= old(self).deadline() ==> r == EngineAction::ReturnTimeout && final(self).next() == old(self).next(),
            now < old(self).deadline() ==> match r {
                EngineAction::Attempt { index } => {
                    &&& old(self).next() <= index < old(self).candidates().len()
                    &&& usable(old(self).candidates()[index as int], *guard, old(self).model(), now)
                    &&& forall|i: int|
                        old(self).next() <= i < index ==> !usable(
                            #[trigger] old(self).candidates()[i],
                            *guard,
                            old(self).model(),
                            now,
                        )
                    &&& final(self).next() == index + 1
                },
                _ => {
                    &&& forall|i: int|
                        old(self).next() <= i < old(self).candidates().len() ==> !usable(
                            #[trigger] old(self).candidates()[i],
                            *guard,
                            old(self).model(),
                            now,
                        )
                    &&& final(self).next() == old(self).candidates().len()
                    &&& r == if old(self).attempts() == 0 {
                        EngineAction::ReturnNoKeysAvailable
                    } else if old(self).last_was_cooldown() {
                        EngineAction::ReturnUpstreamError { status: old(self).last_status() }
                    } else {
                        EngineAction::ReturnAllKeysFailed
                    }
                },
            },
    {
        if now >= self.deadline {
            return EngineAction::ReturnTimeout;
        }
        let start = self.next;
        let mut i: usize = start;
        while i < self.candidates.len()
            invariant
                *self == *old(self),
                start == old(self).next,
                now < old(self).deadline,
                old(self).wf(),
                start <= i <= self.candidates@.len(),
                forall|j: int|
                    start <= j < i ==> !usable(
                        #[trigger] keys_view(self.candidates@)[j],
                        *guard,
                        self.model@,
                        now,
                    ),
            decreases self.candidates.len() - i,
        {
            let k = &self.candidates[i];
            assert(keys_view(self.candidates@)[i as int] == k@);
            let vetoed = guard.is_cooling(k.id.as_str(), now);
            let cooling = k.is_cooling_for_model(self.model.as_str(), now);
            if !vetoed && !cooling {
                self.next = i + 1;
                return EngineAction::Attempt { index: i };
            }
            i = i + 1;
        }
        self.next = i;
        if self.attempts == 0 {
            EngineAction::ReturnNoKeysAvailable
        } else if self.last_was_cooldown {
            EngineAction::ReturnUpstreamError { status: self.last_status }
        } else {
            EngineAction::ReturnAllKeysFailed
        }
    }

    /// A successful attempt on candidate `index` that took `latency`
    /// milliseconds: the request ends with the upstream response, and the
    /// key's success is queued.
    pub fn on_success(&mut self, index: usize, latency: u64, update_id: u64) -> (r: (EngineAction, StateUpdate))
        requires
            index < old(self).candidates().len(),
        ensures
            *final(self) == *old(self),
            r.0 == EngineAction::ReturnSuccess,
            r.1.ident() == update_id,
            r.1 matches StateUpdate::UpdateMetrics { key_id, is_success, latency: l, .. } && key_id@
                == old(self).candidates()[index as int].id && is_success && l == latency,
    {
        let id = self.candidates[index].id.clone();
        assert(keys_view(self.candidates@)[index as int] == self.candidates@[index as int]@);
        (EngineAction::ReturnSuccess, StateUpdate::UpdateMetrics { update_id, key_id: id, is_success: true, latency })
    }

    /// A failed attempt on candidate `index`, classified as `analysis`, whose
    /// last upstream status was `status`. An invalid key is queued to be
    /// blocked and the provider's cached ranking is marked stale; a
    /// rate-limited key is vetoed in the guard and queued to cool for the
    /// model; a caller's error ends the request with the upstream error; any
    /// other failure is queued as a failed attempt.
    pub fn on_failure(
        &mut self,
        index: usize,
        analysis: ErrorAnalysis,
        status: u16,
        latency: u64,
        guard: &mut CooldownGuard,
        cache: &mut HealthCache,
        now: u64,
        update_id: u64,
    ) -> (r: FailureStep)
        requires
            old(self).wf(),
            index < old(self).next(),
            old(cache).wf(),
            old(guard).wf(),
        ensures
            final(self).wf(),
            final(cache).wf(),
            final(guard).wf(),
            final(self).candidates() == old(self).candidates(),
            final(self).provider() == old(self).provider(),
            final(self).model() == old(self).model(),
            final(self).deadline() == old(self).deadline(),
            final(self).next() == old(self).next(),
            final(self).attempts() == if old(self).attempts() < old(self).next() {
                old(self).attempts() + 1
            } else {
                old(self).attempts() + 0
            },
            final(self).last_status() == status,
            final(self).last_was_cooldown() == (analysis is KeyOnCooldown),
            r.update matches Some(u) ==> u.ident() == update_id,
            ({
                let id = old(self).candidates()[index as int].id;
                match analysis {
                    ErrorAnalysis::KeyIsInvalid => {
                        &&& r.reply is None
                        &&& r.update matches Some(StateUpdate::SetStatus { key_id, status: s, .. }) && key_id@ == id
                            && s == ApiKeyStatus::Blocked
                        &&& *final(guard) == *old(guard)
                        &&& final(cache).entry(old(self).provider()) == match old(cache).entry(old(self).provider()) {
                            Some(e) => Some(crate::cache::CacheView { dirty: true, ..e }),
                            None => None,
                        }
                        &&& forall|p: Seq<char>| p != old(self).provider() ==> #[trigger] final(cache).entry(p) == old(cache).entry(p)
                    },
                    ErrorAnalysis::KeyOnCooldown { cooldown_seconds } => {
                        &&& r.reply is None
                        &&& r.update matches Some(StateUpdate::SetCooldown { key_id, model, duration_secs, .. })
                            && key_id@ == id && model@ == old(self).model() && duration_secs == cooldown_seconds
                        &&& final(guard).flagged_from(*old(guard), id, cooldown_seconds, now)
                        &&& *final(cache) == *old(cache)
                    },
                    ErrorAnalysis::UserError => {
                        &&& r.reply == Some(EngineAction::ReturnUpstreamError { status })
                        &&& r.update is None
                        &&& *final(guard) == *old(guard)
                        &&& *final(cache) == *old(cache)
                    },
                    _ => {
                        &&& r.reply is None
                        &&& r.update matches Some(StateUpdate::UpdateMetrics { key_id, is_success, latency: l, .. })
                            && key_id@ == id && !is_success && l == latency
                        &&& *final(guard) == *old(guard)
                        &&& *final(cache) == *old(cache)
                    },
                }
            }),
    {
        assert(keys_view(self.candidates@)[index as int] == self.candidates@[index as int]@);
        let id = self.candidates[index].id.clone();
        if self.attempts < self.next {
            self.attempts = self.attempts + 1;
        }
        self.last_status = status;
        self.last_was_cooldown = match analysis {
            ErrorAnalysis::KeyOnCooldown { .. } => true,
            _ => false,
        };
        match analysis {
            ErrorAnalysis::KeyIsInvalid => {
                cache.invalidate(self.provider.as_str());
                FailureStep {
                    reply: None,
                    update: Some(StateUpdate::SetStatus { update_id, key_id: id, status: ApiKeyStatus::Blocked }),
                }
            },
            ErrorAnalysis::KeyOnCooldown { cooldown_seconds } => {
                guard.flag(id.as_str(), cooldown_seconds, now);
                FailureStep {
                    reply: None,
                    update: Some(
                        StateUpdate::SetCooldown {
                            update_id,
                            key_id: id,
                            model: self.model.clone(),
                            duration_secs: cooldown_seconds,
                        },
                    ),
                }
            },
            ErrorAnalysis::UserError => {
                FailureStep { reply: Some(EngineAction::ReturnUpstreamError { status }), update: None }
            },
            _ => {
                FailureStep {
                    reply: None,
                    update: Some(StateUpdate::UpdateMetrics { update_id, key_id: id, is_success: false, latency }),
                }
            },
        }
    }
}

} // verus!
