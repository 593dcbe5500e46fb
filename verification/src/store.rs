//! The table of pending timers, as the scheduling engine sees it.
//!
//! The queries a worker tick runs against the durable table — all rows due
//! at-or-before an instant, deletion of exactly those rows, the minimum due
//! time — are the engine's own logic, stated here over a sequence of rows
//! and implemented against an in-memory table.  A deployment that keeps the
//! rows on disk must give these operations the same meaning.

use vstd::prelude::*;

use crate::models::{NewTimer, Timer};

verus! {

/// The rows a tick firing at `now` must deliver: every row whose due time
/// has passed, in store order.
pub open spec fn due_rows(rows: Seq<Timer>, now: i64) -> Seq<Timer> {
    rows.filter(|t: Timer| t.at <= now)
}

/// The rows that survive the purge of a tick firing at `now`.
pub open spec fn remaining_rows(rows: Seq<Timer>, now: i64) -> Seq<Timer> {
    rows.filter(|t: Timer| t.at > now)
}

/// The minimum due time over all rows, or `None` for an empty table.
pub open spec fn min_due(rows: Seq<Timer>) -> Option<i64>
    decreases rows.len(),
{
    if rows.len() == 0 {
        None
    } else {
        match min_due(rows.drop_last()) {
            None => Some(rows.last().at),
            Some(m) => Some(
                if rows.last().at < m {
                    rows.last().at
                } else {
                    m
                },
            ),
        }
    }
}

/// Every row's due time is a valid epoch instant (non-negative).
pub open spec fn rows_wf(rows: Seq<Timer>) -> bool {
    forall|i: int| 0 <= i < rows.len() ==> #[trigger] rows[i].at >= 0
}

/// The minimum due time exists exactly when the table is non-empty, is the
/// due time of some row, and bounds every row from below.
pub proof fn lemma_min_due_bounds(rows: Seq<Timer>)
    ensures
        min_due(rows) is Some <==> rows.len() > 0,
        min_due(rows) matches Some(v) ==> exists|i: int|
            0 <= i < rows.len() && #[trigger] rows[i].at == v,
        min_due(rows) matches Some(v) ==> forall|i: int|
            0 <= i < rows.len() ==> v <= #[trigger] rows[i].at,
    decreases rows.len(),
{
    if rows.len() > 0 {
        let prefix = rows.drop_last();
        lemma_min_due_bounds(prefix);
        let v = min_due(rows)->Some_0;
        if rows.len() == 1 {
            assert(rows[0].at == v);
        } else {
            let m = min_due(prefix)->Some_0;
            if rows.last().at < m {
                assert(rows[rows.len() - 1].at == v);
            } else {
                let j = choose|j: int| 0 <= j < prefix.len() && #[trigger] prefix[j].at == m;
                assert(rows[j].at == v);
            }
            assert forall|i: int| 0 <= i < rows.len() implies v <= #[trigger] rows[i].at by {
                if i < rows.len() - 1 {
                    assert(prefix[i].at >= m);
                }
            }
        }
    }
}

/// A member of the due batch is a row of the table whose due time has
/// passed.
pub proof fn lemma_due_rows_membership(rows: Seq<Timer>, now: i64, t: Timer)
    requires
        due_rows(rows, now).contains(t),
    ensures
        rows.contains(t),
        t.at <= now,
    decreases rows.len(),
{
    reveal(Seq::filter);
    if rows.len() > 0 {
        let prefix = rows.drop_last();
        let last = rows.last();
        if last.at <= now && t == last {
            assert(rows[rows.len() - 1] == t);
        } else {
            assert(due_rows(prefix, now).contains(t));
            lemma_due_rows_membership(prefix, now, t);
            let j = choose|j: int| 0 <= j < prefix.len() && prefix[j] == t;
            assert(rows[j] == t);
        }
    }
}

/// A member of the purged table's remainder is a row that was not yet due.
pub proof fn lemma_remaining_rows_membership(rows: Seq<Timer>, now: i64, t: Timer)
    requires
        remaining_rows(rows, now).contains(t),
    ensures
        rows.contains(t),
        t.at > now,
    decreases rows.len(),
{
    reveal(Seq::filter);
    if rows.len() > 0 {
        let prefix = rows.drop_last();
        let last = rows.last();
        if last.at > now && t == last {
            assert(rows[rows.len() - 1] == t);
        } else {
            assert(remaining_rows(prefix, now).contains(t));
            lemma_remaining_rows_membership(prefix, now, t);
            let j = choose|j: int| 0 <= j < prefix.len() && prefix[j] == t;
            assert(rows[j] == t);
        }
    }
}

/// One tick partitions the table: every row goes either to the delivered
/// batch or to the remainder, and to exactly one of them.  A row that is due
/// is therefore delivered exactly once — as often as it was stored — and is
/// absent from the table afterwards.
pub proof fn lemma_fire_partition(rows: Seq<Timer>, now: i64)
    ensures
        rows.to_multiset() =~= due_rows(rows, now).to_multiset().add(
            remaining_rows(rows, now).to_multiset(),
        ),
        forall|i: int|
            0 <= i < rows.len() && rows[i].at <= now ==> due_rows(rows, now).contains(
                #[trigger] rows[i],
            ),
        forall|i: int|
            0 <= i < rows.len() && rows[i].at > now ==> remaining_rows(rows, now).contains(
                #[trigger] rows[i],
            ),
    decreases rows.len(),
{
    broadcast use vstd::seq_lib::group_filter_ensures;
    broadcast use vstd::seq_lib::group_to_multiset_ensures;

    reveal(Seq::filter);
    if rows.len() > 0 {
        let prefix = rows.drop_last();
        let last = rows.last();
        lemma_fire_partition(prefix, now);
        assert(rows =~= prefix.push(last));
        assert(rows.to_multiset() =~= prefix.to_multiset().insert(last));
        if last.at <= now {
            assert(due_rows(rows, now) == due_rows(prefix, now).push(last));
            assert(due_rows(rows, now).to_multiset() =~= due_rows(prefix, now).to_multiset().insert(
                last,
            ));
        } else {
            assert(remaining_rows(rows, now) == remaining_rows(prefix, now).push(last));
            assert(remaining_rows(rows, now).to_multiset() =~= remaining_rows(
                prefix,
                now,
            ).to_multiset().insert(last));
        }
        assert forall|i: int| 0 <= i < rows.len() && rows[i].at <= now implies due_rows(
            rows,
            now,
        ).contains(#[trigger] rows[i]) by {
            if i < rows.len() - 1 {
                assert(due_rows(prefix, now).contains(prefix[i]));
                let j = choose|j: int|
                    0 <= j < due_rows(prefix, now).len() && due_rows(prefix, now)[j] == prefix[i];
                assert(due_rows(rows, now)[j] == rows[i]);
            } else {
                assert(due_rows(rows, now).last() == last);
            }
        }
        assert forall|i: int| 0 <= i < rows.len() && rows[i].at > now implies remaining_rows(
            rows,
            now,
        ).contains(#[trigger] rows[i]) by {
            if i < rows.len() - 1 {
                assert(remaining_rows(prefix, now).contains(prefix[i]));
                let j = choose|j: int|
                    0 <= j < remaining_rows(prefix, now).len() && remaining_rows(prefix, now)[j]
                        == prefix[i];
                assert(remaining_rows(rows, now)[j] == rows[i]);
            } else {
                assert(remaining_rows(rows, now).last() == last);
            }
        }
    }
}

/// A row delivered by the tick that fired at `now` cannot be delivered by
/// any later tick: the purge left no row with its due time behind.
pub proof fn lemma_no_redelivery(rows: Seq<Timer>, now: i64, later: i64, t: Timer)
    requires
        t.at <= now,
    ensures
        !due_rows(remaining_rows(rows, now), later).contains(t),
{
    if due_rows(remaining_rows(rows, now), later).contains(t) {
        lemma_due_rows_membership(remaining_rows(rows, now), later, t);
        lemma_remaining_rows_membership(rows, now, t);
    }
}

/// The in-memory timer table: rows in insertion order, and the identifier
/// the next insertion will receive.
pub struct TimerStore {
    rows: Vec<Timer>,
    next_id: i64,
}

impl View for TimerStore {
    type V = Seq<Timer>;

    closed spec fn view(&self) -> Seq<Timer> {
        self.rows@
    }
}

impl TimerStore {
    /// Internal consistency: every due time is a valid epoch instant and
    /// identifiers cannot run out.
    pub closed spec fn wf(&self) -> bool {
        rows_wf(self.rows@) && 0 <= self.next_id < i64::MAX
    }

    /// An empty table.
    pub fn new() -> (s: Self)
        ensures
            s@ =~= Seq::<Timer>::empty(),
            s.wf(),
    {
        TimerStore { rows: Vec::new(), next_id: 1 }
    }

    /// Persist one new row.  The store assigns the identifier; everything
    /// else is stored verbatim, after all existing rows.
    pub fn insert(&mut self, t: NewTimer) -> (id: i64)
        requires
            old(self).wf(),
            0 <= t.at,
        ensures
            final(self).wf(),
            final(self)@ =~= old(self)@.push(
                (Timer { id: Some(id), at: t.at, whom: t.whom, operation: t.operation }),
            ),
    {
        let id = self.next_id;
        if self.next_id < i64::MAX - 1 {
            self.next_id = self.next_id + 1;
        }
        self.rows.push(Timer { id: Some(id), at: t.at, whom: t.whom, operation: t.operation });
        id
    }

    /// All rows with `at <= now`, in store order, leaving the table as it
    /// was.
    pub fn due_before(&self, now: i64) -> (due: Vec<Timer>)
        ensures
            due@ =~= due_rows(self@, now),
    {
        reveal(Seq::filter);
        let mut due: Vec<Timer> = Vec::new();
        let n = self.rows.len();
        let mut i: usize = 0;
        while i < n
            invariant
                i <= n,
                n == self.rows@.len(),
                due@ =~= due_rows(self.rows@.subrange(0, i as int), now),
            decreases n - i,
        {
            proof {
                reveal(Seq::filter);
                assert(self.rows@.subrange(0, i + 1).drop_last() =~= self.rows@.subrange(
                    0,
                    i as int,
                ));
                assert(self.rows@.subrange(0, i + 1).last() == self.rows@[i as int]);
            }
            if self.rows[i].at <= now {
                due.push(self.rows[i].clone());
            }
            i = i + 1;
        }
        proof {
            assert(self.rows@.subrange(0, n as int) =~= self.rows@);
        }
        due
    }

    /// Delete exactly the rows with `at <= now` — the same predicate the
    /// delivery query used.
    pub fn delete_due(&mut self, now: i64)
        requires
            old(self).wf(),
        ensures
            final(self).wf(),
            final(self)@ =~= remaining_rows(old(self)@, now),
    {
        reveal(Seq::filter);
        let ghost all = self.rows@;
        let mut kept: Vec<Timer> = Vec::new();
        let n = self.rows.len();
        let mut i: usize = 0;
        while i < n
            invariant
                i <= n,
                n == all.len(),
                self.rows@ == all,
                kept@ =~= remaining_rows(all.subrange(0, i as int), now),
            decreases n - i,
        {
            proof {
                reveal(Seq::filter);
                assert(all.subrange(0, i + 1).drop_last() =~= all.subrange(0, i as int));
                assert(all.subrange(0, i + 1).last() == all[i as int]);
            }
            if self.rows[i].at > now {
                kept.push(self.rows[i].clone());
            }
            i = i + 1;
        }
        proof {
            assert(all.subrange(0, n as int) =~= all);
        }
        self.rows = kept;
        proof {
            assert forall|j: int| 0 <= j < self.rows@.len() implies #[trigger] self.rows@[j].at
                >= 0 by {
                lemma_remaining_rows_membership(all, now, self.rows@[j]);
                let k = choose|k: int| 0 <= k < all.len() && all[k] == self.rows@[j];
                assert(all[k].at >= 0);
            }
        }
    }

    /// The minimum due time over all rows, or `None` for an empty table.
    pub fn min_due(&self) -> (m: Option<i64>)
        ensures
            m == min_due(self@),
            self.wf() ==> (m matches Some(v) ==> v >= 0),
    {
        let n = self.rows.len();
        let mut m: Option<i64> = None;
        let mut i: usize = 0;
        while i < n
            invariant
                i <= n,
                n == self.rows@.len(),
                m == min_due(self.rows@.subrange(0, i as int)),
            decreases n - i,
        {
            proof {
                assert(self.rows@.subrange(0, i + 1).drop_last() =~= self.rows@.subrange(
                    0,
                    i as int,
                ));
                assert(self.rows@.subrange(0, i + 1).last() == self.rows@[i as int]);
            }
            let at = self.rows[i].at;
            m = match m {
                None => Some(at),
                Some(v) => Some(
                    if at < v {
                        at
                    } else {
                        v
                    },
                ),
            };
            i = i + 1;
        }
        proof {
            assert(self.rows@.subrange(0, n as int) =~= self.rows@);
            if self.wf() && min_due(self@) is Some {
                lemma_min_due_bounds(self@);
            }
        }
        m
    }
}

} // verus!
