//! Core of a multi-region website uptime monitor.
//!
//! A scheduler enqueues one check task per monitored site into a durable,
//! replayable task queue with consumer groups; per-region workers claim
//! tasks, probe the sites with bounded retries, persist the outcomes as
//! ticks, and acknowledge delivery; an analytics layer derives bucketed
//! aggregates, rolling uptime percentages and continuity streaks from the
//! tick history.

pub mod analytics;
pub mod auth;
pub mod models;
pub mod probe;
pub mod request_input;
pub mod request_output;
pub mod queue;
pub mod scheduler;
pub mod seq_util;
pub mod store;
pub mod website;
pub mod worker;

use vstd::prelude::*;

verus! {

} // verus!
