//! Turning one inbound chat message into a response and, possibly, a timer.
//!
//! A message addressed to a channel (destination starting with the channel
//! sigil) is only a command when its text starts with the tag marker;
//! untagged channel text is silently ignored.  A direct message is always a
//! command, tagged or not.  The first word names the command: `in` schedules
//! a timer, anything else earns an "unknown command" reply.  A non-empty
//! response goes back as a notice to the channel, prefixed with the sender's
//! name, or as a direct reply to the sender.

use vstd::prelude::*;
use vstd::string::StrSliceExecFns;
use vstd::string::StringExecFns;

use crate::decimal::dec_rep;
use crate::decimal::decimal_string;
use crate::duration::{parse_period, spec_parse};
use crate::models::NewTimer;
use crate::scheduler::SchedulerState;

verus! {

/// The sigil that marks a destination as a shared channel.
pub open spec fn is_channel(target: Seq<char>) -> bool {
    target.len() > 0 && target[0] == '#'
}

/// The fixed marker that addresses the bot from inside a channel.
pub open spec fn is_tagged(text: Seq<char>) -> bool {
    text.len() > 0 && text[0] == '\u{a1}'
}

/// The first position at or after `i` holding `c`, or the length.
pub open spec fn seek_char(s: Seq<char>, i: int, c: char) -> int
    decreases s.len() - i,
{
    if i < 0 || i >= s.len() {
        s.len() as int
    } else if s[i] == c {
        i
    } else {
        seek_char(s, i + 1, c)
    }
}

pub proof fn lemma_seek_char(s: Seq<char>, i: int, c: char)
    requires
        0 <= i <= s.len(),
    ensures
        i <= seek_char(s, i, c) <= s.len(),
        forall|k: int| i <= k < seek_char(s, i, c) ==> #[trigger] s[k] != c,
        seek_char(s, i, c) < s.len() ==> s[seek_char(s, i, c)] == c,
    decreases s.len() - i,
{
    if i < s.len() && s[i] != c {
        lemma_seek_char(s, i + 1, c);
    }
}

/// What the `in` command decides, given everything after the command word:
/// the response text, and the due time and text of the timer to persist, if
/// any.  Fields are `period`, `subcommand` and free text, split on single
/// spaces; the period is parsed before the subcommand is checked; a due
/// time past the signed 64-bit range persists nothing.
pub open spec fn in_command_outcome(arg: Seq<char>, now: u64) -> (Seq<char>, Option<(i64, Seq<char>)>) {
    let p1 = seek_char(arg, 0, ' ');
    if p1 >= arg.len() {
        ("syntax error: in requires a sub command"@, None::<(i64, Seq<char>)>)
    } else {
        let p2 = seek_char(arg, p1 + 1, ' ');
        if p2 >= arg.len() {
            ("syntax error: in requires text"@, None::<(i64, Seq<char>)>)
        } else {
            let period = arg.subrange(0, p1);
            let subcmd = arg.subrange(p1 + 1, p2);
            let text = arg.subrange(p2 + 1, arg.len() as int);
            match spec_parse(period) {
                Err(e) => ("invalid period '"@ + period + "': "@ + e, None::<(i64, Seq<char>)>),
                Ok(dur) => {
                    if subcmd != "reply"@ {
                        (
                            "subcommand must be 'reply', not '"@ + subcmd + "'"@,
                            None::<(i64, Seq<char>)>,
                        )
                    } else if now + dur > i64::MAX {
                        ("that's too far in the future!"@, None::<(i64, Seq<char>)>)
                    } else {
                        (
                            "Will reply '"@ + text + "' at '"@ + dec_rep((now + dur) as nat)
                                + "'"@,
                            Some((((now + dur) as u64) as i64, text)),
                        )
                    }
                },
            }
        }
    }
}

fn scan_char(s: &str, from: usize, c: char) -> (r: usize)
    requires
        from <= s@.len(),
    ensures
        r == seek_char(s@, from as int, c),
        from <= r <= s@.len(),
{
    let n = s.unicode_len();
    let mut i = from;
    while i < n
        invariant
            from <= i <= n,
            n == s@.len(),
            seek_char(s@, from as int, c) == seek_char(s@, i as int, c),
        decreases n - i,
    {
        if s.get_char(i) == c {
            return i;
        }
        i = i + 1;
    }
    i
}

/// Does `s[from..to]` read exactly as `lit`?
fn range_matches(s: &str, from: usize, to: usize, lit: &str) -> (b: bool)
    requires
        from <= to <= s@.len(),
    ensures
        b == (s@.subrange(from as int, to as int) == lit@),
{
    let m = lit.unicode_len();
    if to - from != m {
        return false;
    }
    let mut k: usize = 0;
    while k < m
        invariant
            0 <= k <= m,
            m == lit@.len(),
            to - from == m,
            from <= to <= s@.len(),
            forall|j: int| 0 <= j < k ==> s@[from + j] == lit@[j],
        decreases m - k,
    {
        if s.get_char(from + k) != lit.get_char(k) {
            proof {
                assert(s@.subrange(from as int, to as int)[k as int] != lit@[k as int]);
            }
            return false;
        }
        k = k + 1;
    }
    proof {
        assert(s@.subrange(from as int, to as int) =~= lit@);
    }
    true
}

/// Handle the `in` command: parse and validate `arg`, lower the wake cache
/// when a timer is to be persisted, and word the response.  The caller
/// persists the returned timer; its recipient is `whom`.
pub fn command_in(sched: &mut SchedulerState, now: u64, whom: &str, arg: &str) -> (r: (
    String,
    Option<NewTimer>,
))
    ensures
        ({
            let (msg, timer) = in_command_outcome(arg@, now);
            &&& r.0@ == msg
            &&& timer is None ==> r.1 is None && *final(sched) == *old(sched)
            &&& timer matches Some((at, text)) ==> {
                &&& r.1 matches Some(nt)
                &&& nt.at == at
                &&& nt.whom@ == whom@
                &&& nt.operation@ == text
                &&& final(sched).earliest_wake == (if (at as u64) < old(sched).earliest_wake {
                    at as u64
                } else {
                    old(sched).earliest_wake
                })
            }
        }),
{
    let n = arg.unicode_len();
    let p1 = scan_char(arg, 0, ' ');
    if p1 >= n {
        return (String::from_str("syntax error: in requires a sub command"), None);
    }
    let p2 = scan_char(arg, p1 + 1, ' ');
    if p2 >= n {
        return (String::from_str("syntax error: in requires text"), None);
    }
    let period = arg.substring_char(0, p1);
    let dur = match parse_period(period) {
        Err(msg) => {
            let resp = String::from_str("invalid period '").concat(period).concat("': ").concat(
                msg.as_str(),
            );
            return (resp, None);
        },
        Ok(d) => d,
    };
    if !range_matches(arg, p1 + 1, p2, "reply") {
        let sub = arg.substring_char(p1 + 1, p2);
        let resp = String::from_str("subcommand must be 'reply', not '").concat(sub).concat("'");
        return (resp, None);
    }
    let when = match now.checked_add(dur) {
        None => {
            return (String::from_str("that's too far in the future!"), None);
        },
        Some(w) => w,
    };
    if when > i64::MAX as u64 {
        return (String::from_str("that's too far in the future!"), None);
    }
    let text = arg.substring_char(p2 + 1, n);
    sched.lower(when);
    let timer = NewTimer {
        at: when as i64,
        whom: String::from_str(whom),
        operation: String::from_str(text),
    };
    let num = decimal_string(when);
    let resp = String::from_str("Will reply '").concat(text).concat("' at '").concat(
        num.as_str(),
    ).concat("'");
    (resp, Some(timer))
}

/// An outbound decision: stay silent, send a notice to a destination, or
/// reply directly to a user.
pub enum Reply {
    Silent,
    Notice { to: String, text: String },
    Direct { to: String, text: String },
}

/// The mathematical shadow of `Reply`, over character sequences.
pub enum ReplyModel {
    Silent,
    Notice { to: Seq<char>, text: Seq<char> },
    Direct { to: Seq<char>, text: Seq<char> },
}

impl View for Reply {
    type V = ReplyModel;

    open spec fn view(&self) -> ReplyModel {
        match self {
            Reply::Silent => ReplyModel::Silent,
            Reply::Notice { to, text } => ReplyModel::Notice { to: to@, text: text@ },
            Reply::Direct { to, text } => ReplyModel::Direct { to: to@, text: text@ },
        }
    }
}

/// What one inbound message decides: the outbound reply, and the due time
/// and text of the timer to persist, if any.  Untagged channel text decides
/// nothing; otherwise the tag marker is stripped, the first word picks the
/// command, and a non-empty response is routed back — prefixed with the
/// sender's name on a channel.
pub open spec fn message_outcome(sender: Seq<char>, target: Seq<char>, text: Seq<char>, now: u64) -> (
    ReplyModel,
    Option<(i64, Seq<char>)>,
) {
    if is_channel(target) && !is_tagged(text) {
        (ReplyModel::Silent, None::<(i64, Seq<char>)>)
    } else {
        let line = if is_tagged(text) {
            text.skip(1)
        } else {
            text
        };
        let sp = seek_char(line, 0, ' ');
        let name = line.subrange(0, sp);
        let rest = if sp >= line.len() {
            Seq::<char>::empty()
        } else {
            line.subrange(sp + 1, line.len() as int)
        };
        let outcome = if name == "in"@ {
            in_command_outcome(rest, now)
        } else {
            ("unknown command: "@ + name, None::<(i64, Seq<char>)>)
        };
        let reply = if outcome.0.len() == 0 {
            ReplyModel::Silent
        } else if is_channel(target) {
            ReplyModel::Notice { to: target, text: sender + ": "@ + outcome.0 }
        } else {
            ReplyModel::Direct { to: sender, text: outcome.0 }
        };
        (reply, outcome.1)
    }
}

/// Route one inbound message: decide the reply, the timer to persist (its
/// recipient is the sender), and the wake-cache change.
pub fn process(sched: &mut SchedulerState, now: u64, sender: &str, target: &str, text: &str) -> (r:
    (Reply, Option<NewTimer>))
    ensures
        ({
            let (reply, timer) = message_outcome(sender@, target@, text@, now);
            &&& r.0@ == reply
            &&& timer is None ==> r.1 is None && *final(sched) == *old(sched)
            &&& timer matches Some((at, operation)) ==> {
                &&& r.1 matches Some(nt)
                &&& nt.at == at
                &&& nt.whom@ == sender@
                &&& nt.operation@ == operation
                &&& final(sched).earliest_wake == (if (at as u64) < old(sched).earliest_wake {
                    at as u64
                } else {
                    old(sched).earliest_wake
                })
            }
        }),
{
    let channel = target.unicode_len() > 0 && target.get_char(0) == '#';
    let tn = text.unicode_len();
    let tagged = tn > 0 && text.get_char(0) == '\u{a1}';
    if channel && !tagged {
        return (Reply::Silent, None);
    }
    let line: &str = if tagged {
        text.substring_char(1, tn)
    } else {
        text
    };
    proof {
        assert(line@ =~= (if is_tagged(text@) {
            text@.skip(1)
        } else {
            text@
        }));
    }
    let ln = line.unicode_len();
    let sp = scan_char(line, 0, ' ');
    let (resp, timer) = if range_matches(line, 0, sp, "in") {
        let rest: &str = if sp >= ln {
            ""
        } else {
            line.substring_char(sp + 1, ln)
        };
        proof {
            reveal_strlit("");
            assert(""@ =~= Seq::<char>::empty());
        }
        command_in(sched, now, sender, rest)
    } else {
        let name = line.substring_char(0, sp);
        (String::from_str("unknown command: ").concat(name), None)
    };
    let reply = if resp.as_str().is_empty() {
        Reply::Silent
    } else if channel {
        let full = String::from_str(sender).concat(": ").concat(resp.as_str());
        Reply::Notice { to: String::from_str(target), text: full }
    } else {
        Reply::Direct { to: String::from_str(sender), text: resp }
    };
    (reply, timer)
}

} // verus!
