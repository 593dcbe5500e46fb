//! In-memory cache of the earliest pending wake time.
//!
//! The cache is a single lower bound shared (under one lock, owned by the
//! caller) between the message-handling path and the background worker.  It
//! may drift below the true minimum due time — that only costs a redundant
//! store query — but must never exceed it, or a timer would fire late.  Every
//! path that could raise it instead recomputes it from the store's minimum.

use vstd::prelude::*;

use crate::models::Timer;
use crate::store::{min_due, rows_wf};

verus! {

/// The shared scheduling cache: a lower bound on the due time of every
/// pending timer, or `u64::MAX` when no timer is known to be pending.
pub struct SchedulerState {
    pub earliest_wake: u64,
}

/// A cache value is sound for a set of pending rows when it does not exceed
/// any of their due times; firing is then never delayed by the cache.
pub open spec fn wake_sound(wake: u64, rows: Seq<Timer>) -> bool {
    forall|i: int| 0 <= i < rows.len() ==> wake <= #[trigger] rows[i].at as u64
}

impl SchedulerState {
    /// A fresh cache with no pending timer known.
    pub fn new() -> (s: Self)
        ensures
            s.earliest_wake == u64::MAX,
    {
        SchedulerState { earliest_wake: u64::MAX }
    }

    /// Lower the cache opportunistically after a timer was stored with due
    /// time `due_at`.  The cache never rises here, so inserts of
    /// progressively earlier timers leave it non-increasing.
    pub fn lower(&mut self, due_at: u64)
        ensures
            final(self).earliest_wake == if due_at < old(self).earliest_wake {
                due_at
            } else {
                old(self).earliest_wake
            },
            final(self).earliest_wake <= old(self).earliest_wake,
            final(self).earliest_wake <= due_at,
    {
        if due_at < self.earliest_wake {
            self.earliest_wake = due_at;
        }
    }

    /// Recompute the cache from the store's ground truth: the minimum due
    /// time over all pending rows, or the no-timer sentinel when the store
    /// is empty.
    pub fn refresh(&mut self, store_min: Option<i64>)
        requires
            store_min matches Some(v) ==> v >= 0,
        ensures
            final(self).earliest_wake == match store_min {
                Some(v) => v as u64,
                None => u64::MAX,
            },
    {
        self.earliest_wake = match store_min {
            Some(v) => v as u64,
            None => u64::MAX,
        };
    }

    /// The worker's per-tick check: is a timer possibly due at `now`?
    /// When this is false the tick queries nothing.
    pub fn wake_due(&self, now: u64) -> (due: bool)
        ensures
            due == (self.earliest_wake <= now),
    {
        self.earliest_wake <= now
    }
}

/// Lowering the cache to cover a newly inserted row keeps it sound: it still
/// bounds every old row, and now bounds the new one too.
pub proof fn lemma_lower_keeps_wake_sound(wake: u64, rows: Seq<Timer>, t: Timer)
    requires
        wake_sound(wake, rows),
        0 <= t.at,
    ensures
        wake_sound(
            (if (t.at as u64) < wake {
                t.at as u64
            } else {
                wake
            }),
            rows.push(t),
        ),
{
    let lowered: u64 = if (t.at as u64) < wake {
        t.at as u64
    } else {
        wake
    };
    assert forall|i: int| 0 <= i < rows.push(t).len() implies lowered <= #[trigger] rows.push(
        t,
    )[i].at as u64 by {
        if i < rows.len() {
            assert(rows.push(t)[i] == rows[i]);
        } else {
            assert(rows.push(t)[i] == t);
        }
    }
}

/// Recomputing the cache from the store's minimum yields a sound value:
/// the minimum due time bounds every row, and the sentinel appears only
/// when there are no rows at all.
pub proof fn lemma_refresh_wake_sound(rows: Seq<Timer>)
    requires
        rows_wf(rows),
    ensures
        wake_sound(
            match min_due(rows) {
                Some(v) => v as u64,
                None => u64::MAX,
            },
            rows,
        ),
{
    crate::store::lemma_min_due_bounds(rows);
}

} // verus!
