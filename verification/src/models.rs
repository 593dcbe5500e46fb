//! The data carried by a scheduled notification.

use vstd::prelude::*;

verus! {

/// A durably stored one-shot notification: deliver `operation` verbatim to
/// `whom` once the wall clock reaches `at` (absolute epoch milliseconds).
/// `id` is assigned by the store and absent before insertion.
pub struct Timer {
    pub id: Option<i64>,
    pub at: i64,
    pub whom: String,
    pub operation: String,
}

impl Clone for Timer {
    fn clone(&self) -> (t: Self)
        ensures
            t == *self,
    {
        Timer {
            id: self.id,
            at: self.at,
            whom: self.whom.clone(),
            operation: self.operation.clone(),
        }
    }
}

/// A notification as the command handler hands it to the store, before an
/// identifier has been assigned.
pub struct NewTimer {
    pub at: i64,
    pub whom: String,
    pub operation: String,
}

} // verus!
