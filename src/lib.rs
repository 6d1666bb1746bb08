//! Key selection, health scoring, circuit breaking, cooldown and failover
//! for a load balancer that spreads calls to AI providers over a pool of
//! API keys.

pub mod record;
pub mod scorer;
pub mod guard;
pub mod text;
pub mod models;
pub mod gcp;
pub mod classifier;
pub mod queue;
pub mod store;
pub mod cache;
pub mod retry;
pub mod engine;
pub mod updater;
pub mod intake;
pub mod web;
pub mod request;
