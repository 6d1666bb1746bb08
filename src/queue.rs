//! The state updates that the request path queues for the durable store.
//! Each update carries an identity, so that a redelivered update can be
//! told from a new one.

use vstd::prelude::*;
use crate::record::ApiKeyStatus;

verus! {

/// A change to one key, applied later by the state updater. `update_id`
/// names the update: a redelivery carries the same one.
#[derive(Debug)]
pub enum StateUpdate {
    /// Sets the key's status.
    SetStatus { update_id: u64, key_id: String, status: ApiKeyStatus },
    /// Puts the key on cooldown for one model.
    SetCooldown { update_id: u64, key_id: String, model: String, duration_secs: u64 },
    /// Records the outcome and latency of one attempt.
    UpdateMetrics { update_id: u64, key_id: String, is_success: bool, latency: u64 },
}

impl StateUpdate {
    /// The key that the update is for.
    pub open spec fn target(&self) -> Seq<char> {
        match self {
            StateUpdate::SetStatus { key_id, .. } => key_id@,
            StateUpdate::SetCooldown { key_id, .. } => key_id@,
            StateUpdate::UpdateMetrics { key_id, .. } => key_id@,
        }
    }

    /// The identity of the update.
    pub open spec fn ident(&self) -> u64 {
        match self {
            StateUpdate::SetStatus { update_id, .. } => *update_id,
            StateUpdate::SetCooldown { update_id, .. } => *update_id,
            StateUpdate::UpdateMetrics { update_id, .. } => *update_id,
        }
    }

    /// The key that the update is for.
    pub fn key_id(&self) -> (r: &str)
        ensures
            r@ == self.target(),
    {
        match self {
            StateUpdate::SetStatus { key_id, .. } => key_id.as_str(),
            StateUpdate::SetCooldown { key_id, .. } => key_id.as_str(),
            StateUpdate::UpdateMetrics { key_id, .. } => key_id.as_str(),
        }
    }

    /// The identity of the update.
    pub fn update_id(&self) -> (r: u64)
        ensures
            r == self.ident(),
    {
        match self {
            StateUpdate::SetStatus { update_id, .. } => *update_id,
            StateUpdate::SetCooldown { update_id, .. } => *update_id,
            StateUpdate::UpdateMetrics { update_id, .. } => *update_id,
        }
    }
}

} // verus!
