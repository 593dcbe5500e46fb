//! One tick of the background delivery loop.
//!
//! Every fixed interval the worker compares the wake cache against the
//! clock.  While the cache says nothing is due, the tick touches nothing
//! else.  Otherwise it queries the rows already due, hands them back for
//! delivery, purges exactly those rows, and recomputes the cache from the
//! store's new minimum — the one place the cache may rise.

use vstd::prelude::*;

use crate::models::Timer;
use crate::scheduler::SchedulerState;
use crate::store::{due_rows, min_due, remaining_rows, TimerStore};

verus! {

/// Run one tick against the store at wall-clock `now`: the returned rows
/// are exactly the batch the caller must deliver, each of which has left
/// the store.
pub fn worker_tick(sched: &mut SchedulerState, store: &mut TimerStore, now: u64) -> (fired: Vec<
    Timer,
>)
    requires
        old(store).wf(),
        now <= i64::MAX as u64,
    ensures
        final(store).wf(),
        old(sched).earliest_wake > now ==> fired@ =~= Seq::<Timer>::empty() && *final(store)
            == *old(store) && *final(sched) == *old(sched),
        old(sched).earliest_wake <= now ==> fired@ =~= due_rows(old(store)@, now as i64),
        old(sched).earliest_wake <= now && fired@.len() == 0 ==> *final(store) == *old(store)
            && *final(sched) == *old(sched),
        old(sched).earliest_wake <= now && fired@.len() > 0 ==> {
            &&& final(store)@ =~= remaining_rows(old(store)@, now as i64)
            &&& final(sched).earliest_wake == (match min_due(final(store)@) {
                Some(v) => v as u64,
                None => u64::MAX,
            })
        },
{
    if !sched.wake_due(now) {
        return Vec::new();
    }
    let now_due = now as i64;
    let fired = store.due_before(now_due);
    if fired.len() == 0 {
        return fired;
    }
    store.delete_due(now_due);
    let next = store.min_due();
    sched.refresh(next);
    fired
}

} // verus!
