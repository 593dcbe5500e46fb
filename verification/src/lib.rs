//! Scheduling engine for a chat bot that delivers delayed notifications.
//!
//! A user asks the bot, in chat, to deliver a text after a human-readable
//! delay ("in 1m23s reply hello").  The engine parses the delay, stores the
//! resulting one-shot timer, keeps an in-memory lower bound on the next due
//! time so a periodic worker can skip useless store queries, and decides,
//! for every inbound message and every worker tick, what to send and what to
//! change.  All chat and storage I/O stays outside this crate; the functions
//! here take plain values and return plain values, with contracts.

use vstd::prelude::*;

pub mod decimal;
pub mod dispatch;
pub mod duration;
pub mod models;
pub mod scheduler;
pub mod store;
pub mod worker;

verus! {

} // verus!
