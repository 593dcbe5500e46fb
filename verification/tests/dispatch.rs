use remindbot::dispatch::{command_in, process, Reply};
use remindbot::scheduler::SchedulerState;

#[test]
fn schedule_confirms_and_returns_timer() {
    let mut sched = SchedulerState::new();
    let (resp, timer) = command_in(&mut sched, 1_000, "bob", "1m reply hi");
    assert_eq!(resp, "Will reply 'hi' at '61000'");
    let timer = timer.expect("a timer must be persisted");
    assert_eq!(timer.at, 61_000);
    assert_eq!(timer.whom, "bob");
    assert_eq!(timer.operation, "hi");
    assert_eq!(sched.earliest_wake, 61_000);
}

#[test]
fn bad_period_names_the_fragment() {
    let mut sched = SchedulerState::new();
    let (resp, timer) = command_in(&mut sched, 1_000, "bob", "5z reply hi");
    assert_eq!(resp, "invalid period '5z': unsupported duration code: z");
    assert!(timer.is_none());
    assert_eq!(sched.earliest_wake, u64::MAX);
}

#[test]
fn missing_subcommand() {
    let mut sched = SchedulerState::new();
    let (resp, timer) = command_in(&mut sched, 1_000, "bob", "5m");
    assert_eq!(resp, "syntax error: in requires a sub command");
    assert!(timer.is_none());
    let (resp, timer) = command_in(&mut sched, 1_000, "bob", "");
    assert_eq!(resp, "syntax error: in requires a sub command");
    assert!(timer.is_none());
}

#[test]
fn missing_text() {
    let mut sched = SchedulerState::new();
    let (resp, timer) = command_in(&mut sched, 1_000, "bob", "5m reply");
    assert_eq!(resp, "syntax error: in requires text");
    assert!(timer.is_none());
}

#[test]
fn subcommand_must_be_reply() {
    let mut sched = SchedulerState::new();
    let (resp, timer) = command_in(&mut sched, 1_000, "bob", "5m echo hi");
    assert_eq!(resp, "subcommand must be 'reply', not 'echo'");
    assert!(timer.is_none());
}

#[test]
fn too_far_in_the_future_is_not_persisted() {
    let mut sched = SchedulerState::new();
    let (resp, timer) = command_in(&mut sched, i64::MAX as u64, "bob", "1ms reply hi");
    assert_eq!(resp, "that's too far in the future!");
    assert!(timer.is_none());
    assert_eq!(sched.earliest_wake, u64::MAX);
    // Large enough to overflow even the unsigned range.
    let (resp, timer) = command_in(&mut sched, u64::MAX, "bob", "1d reply hi");
    assert_eq!(resp, "that's too far in the future!");
    assert!(timer.is_none());
}

#[test]
fn untagged_channel_text_is_ignored() {
    let mut sched = SchedulerState::new();
    let (reply, timer) = process(&mut sched, 1_000, "alice", "#lounge", "in 1m reply hi");
    assert!(matches!(reply, Reply::Silent));
    assert!(timer.is_none());
    assert_eq!(sched.earliest_wake, u64::MAX);
}

#[test]
fn tagged_channel_text_dispatches_as_notice() {
    let mut sched = SchedulerState::new();
    let (reply, timer) = process(&mut sched, 1_000, "alice", "#lounge", "\u{a1}in 1m reply hi");
    match reply {
        Reply::Notice { to, text } => {
            assert_eq!(to, "#lounge");
            assert_eq!(text, "alice: Will reply 'hi' at '61000'");
        }
        other => panic!("expected a notice, got {:?}", kind_of(&other)),
    }
    let timer = timer.expect("a timer must be persisted");
    assert_eq!(timer.whom, "alice");
    assert_eq!(sched.earliest_wake, 61_000);
}

#[test]
fn direct_text_dispatches_untagged_and_tagged() {
    let mut sched = SchedulerState::new();
    let (reply, timer) = process(&mut sched, 1_000, "alice", "bot", "in 1m reply hi");
    match reply {
        Reply::Direct { to, text } => {
            assert_eq!(to, "alice");
            assert_eq!(text, "Will reply 'hi' at '61000'");
        }
        other => panic!("expected a direct reply, got {:?}", kind_of(&other)),
    }
    assert!(timer.is_some());

    let mut sched = SchedulerState::new();
    let (reply, timer) = process(&mut sched, 1_000, "alice", "bot", "\u{a1}in 1m reply hi");
    match reply {
        Reply::Direct { to, text } => {
            assert_eq!(to, "alice");
            assert_eq!(text, "Will reply 'hi' at '61000'");
        }
        other => panic!("expected a direct reply, got {:?}", kind_of(&other)),
    }
    assert!(timer.is_some());
}

#[test]
fn unknown_command_is_named() {
    let mut sched = SchedulerState::new();
    let (reply, timer) = process(&mut sched, 1_000, "alice", "bot", "foo bar");
    match reply {
        Reply::Direct { to, text } => {
            assert_eq!(to, "alice");
            assert_eq!(text, "unknown command: foo");
        }
        other => panic!("expected a direct reply, got {:?}", kind_of(&other)),
    }
    assert!(timer.is_none());
}

fn kind_of(reply: &Reply) -> &'static str {
    match reply {
        Reply::Silent => "silence",
        Reply::Notice { .. } => "a notice",
        Reply::Direct { .. } => "a direct reply",
    }
}
