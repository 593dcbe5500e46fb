use remindbot::models::NewTimer;
use remindbot::scheduler::SchedulerState;
use remindbot::store::TimerStore;
use remindbot::worker::worker_tick;

fn new_timer(at: i64, whom: &str, operation: &str) -> NewTimer {
    NewTimer { at, whom: whom.to_string(), operation: operation.to_string() }
}

#[test]
fn due_timer_fires_exactly_once() {
    let mut store = TimerStore::new();
    let mut sched = SchedulerState::new();
    store.insert(new_timer(50, "bob", "hi"));
    sched.lower(50);

    let fired = worker_tick(&mut sched, &mut store, 100);
    assert_eq!(fired.len(), 1);
    assert_eq!(fired[0].at, 50);
    assert_eq!(fired[0].whom, "bob");
    assert_eq!(fired[0].operation, "hi");
    assert!(store.min_due().is_none());

    // Later ticks find nothing: the row is gone from the store.
    let fired = worker_tick(&mut sched, &mut store, 102);
    assert!(fired.is_empty());
    let fired = worker_tick(&mut sched, &mut store, u64::MAX >> 1);
    assert!(fired.is_empty());
}

#[test]
fn duplicate_rows_fire_once_each() {
    let mut store = TimerStore::new();
    let mut sched = SchedulerState::new();
    store.insert(new_timer(50, "bob", "hi"));
    store.insert(new_timer(50, "bob", "hi"));
    sched.lower(50);

    let fired = worker_tick(&mut sched, &mut store, 100);
    assert_eq!(fired.len(), 2);
    assert!(worker_tick(&mut sched, &mut store, 101).is_empty());
}

#[test]
fn cache_skips_the_store_until_due() {
    let mut store = TimerStore::new();
    let mut sched = SchedulerState::new();
    store.insert(new_timer(500, "bob", "later"));
    sched.lower(500);

    let fired = worker_tick(&mut sched, &mut store, 499);
    assert!(fired.is_empty());
    assert_eq!(sched.earliest_wake, 500);

    let fired = worker_tick(&mut sched, &mut store, 500);
    assert_eq!(fired.len(), 1);
}

#[test]
fn earliest_wake_is_non_increasing_under_inserts() {
    let mut sched = SchedulerState::new();
    assert_eq!(sched.earliest_wake, u64::MAX);
    let mut previous = sched.earliest_wake;
    for due in [900, 700, 800, 100, 100] {
        sched.lower(due);
        assert!(sched.earliest_wake <= previous);
        previous = sched.earliest_wake;
    }
    assert_eq!(sched.earliest_wake, 100);
}

#[test]
fn sentinel_returns_once_store_is_drained() {
    let mut store = TimerStore::new();
    let mut sched = SchedulerState::new();
    store.insert(new_timer(10, "bob", "one"));
    store.insert(new_timer(20, "eve", "two"));
    sched.lower(10);

    let fired = worker_tick(&mut sched, &mut store, 15);
    assert_eq!(fired.len(), 1);
    assert_eq!(fired[0].operation, "one");
    assert_eq!(sched.earliest_wake, 20);

    let fired = worker_tick(&mut sched, &mut store, 25);
    assert_eq!(fired.len(), 1);
    assert_eq!(fired[0].operation, "two");
    assert_eq!(sched.earliest_wake, u64::MAX);
}

#[test]
fn due_boundary_is_inclusive() {
    let mut store = TimerStore::new();
    store.insert(new_timer(100, "bob", "on the dot"));
    let due = store.due_before(100);
    assert_eq!(due.len(), 1);
    store.delete_due(100);
    assert!(store.min_due().is_none());
}

#[test]
fn store_assigns_fresh_identifiers() {
    let mut store = TimerStore::new();
    let first = store.insert(new_timer(1, "a", "x"));
    let second = store.insert(new_timer(2, "b", "y"));
    assert_ne!(first, second);
    let due = store.due_before(10);
    assert_eq!(due[0].id, Some(first));
    assert_eq!(due[1].id, Some(second));
}

#[test]
fn min_due_tracks_the_minimum() {
    let mut store = TimerStore::new();
    assert_eq!(store.min_due(), None);
    store.insert(new_timer(300, "a", "x"));
    assert_eq!(store.min_due(), Some(300));
    store.insert(new_timer(100, "b", "y"));
    assert_eq!(store.min_due(), Some(100));
    store.insert(new_timer(200, "c", "z"));
    assert_eq!(store.min_due(), Some(100));
}
