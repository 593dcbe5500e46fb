//! The human-readable duration grammar.
//!
//! A duration is a concatenation, without delimiters, of `(digits, unit)`
//! pairs: one or more decimal digits followed by the maximal run of
//! non-digit characters, which must name a unit.  The value is the sum of
//! `digits * unit` over all pairs, left to right; repeating a unit adds
//! again.  The empty string is a valid duration of zero milliseconds.

use vstd::prelude::*;
use vstd::string::StrSliceExecFns;
use vstd::string::StringExecFns;

verus! {

/// Milliseconds in an average month: 365.24 / 12 days.  A fixed
/// approximation, deliberately not calendar-aware.
pub const MONTH_MS: u64 = 2629728000;

pub open spec fn is_digit_char(c: char) -> bool {
    48 <= c as u32 <= 57
}

/// The numeric value of one decimal digit character.
pub open spec fn digit_val(c: char) -> int {
    c as u32 - 48
}

/// The first position at or after `i` holding a non-digit, or the length.
pub open spec fn seek_nondigit(s: Seq<char>, i: int) -> int
    decreases s.len() - i,
{
    if i < 0 || i >= s.len() {
        s.len() as int
    } else if !is_digit_char(s[i]) {
        i
    } else {
        seek_nondigit(s, i + 1)
    }
}

/// The first position at or after `i` holding a digit, or the length.
pub open spec fn seek_digit(s: Seq<char>, i: int) -> int
    decreases s.len() - i,
{
    if i < 0 || i >= s.len() {
        s.len() as int
    } else if is_digit_char(s[i]) {
        i
    } else {
        seek_digit(s, i + 1)
    }
}

pub proof fn lemma_seek_nondigit(s: Seq<char>, i: int)
    requires
        0 <= i <= s.len(),
    ensures
        i <= seek_nondigit(s, i) <= s.len(),
        forall|k: int| i <= k < seek_nondigit(s, i) ==> is_digit_char(#[trigger] s[k]),
        seek_nondigit(s, i) < s.len() ==> !is_digit_char(s[seek_nondigit(s, i)]),
    decreases s.len() - i,
{
    if i < s.len() && is_digit_char(s[i]) {
        lemma_seek_nondigit(s, i + 1);
    }
}

pub proof fn lemma_seek_digit(s: Seq<char>, i: int)
    requires
        0 <= i <= s.len(),
    ensures
        i <= seek_digit(s, i) <= s.len(),
        forall|k: int| i <= k < seek_digit(s, i) ==> !is_digit_char(#[trigger] s[k]),
        seek_digit(s, i) < s.len() ==> is_digit_char(s[seek_digit(s, i)]),
    decreases s.len() - i,
{
    if i < s.len() && !is_digit_char(s[i]) {
        lemma_seek_digit(s, i + 1);
    }
}

/// The value of a run of decimal digits, most significant first.
pub open spec fn digits_val(s: Seq<char>) -> int
    decreases s.len(),
{
    if s.len() == 0 {
        0
    } else {
        digits_val(s.drop_last()) * 10 + digit_val(s.last())
    }
}

pub proof fn lemma_digits_val_nonneg(s: Seq<char>)
    requires
        forall|k: int| 0 <= k < s.len() ==> is_digit_char(#[trigger] s[k]),
    ensures
        digits_val(s) >= 0,
    decreases s.len(),
{
    if s.len() > 0 {
        assert(forall|k: int|
            0 <= k < s.drop_last().len() ==> is_digit_char(#[trigger] s.drop_last()[k]));
        lemma_digits_val_nonneg(s.drop_last());
    }
}

/// Reading more digits never shrinks the value: the value of a prefix is a
/// lower bound for the value of the whole run.
pub proof fn lemma_digits_val_prefix(s: Seq<char>, from: int, j: int, to: int)
    requires
        0 <= from <= j <= to <= s.len(),
        forall|k: int| from <= k < to ==> is_digit_char(#[trigger] s[k]),
    ensures
        0 <= digits_val(s.subrange(from, j)) <= digits_val(s.subrange(from, to)),
    decreases to - j,
{
    assert(forall|k: int|
        0 <= k < s.subrange(from, j).len() ==> is_digit_char(#[trigger] s.subrange(from, j)[k]));
    lemma_digits_val_nonneg(s.subrange(from, j));
    if j < to {
        assert(s.subrange(from, j + 1).drop_last() =~= s.subrange(from, j));
        assert(s.subrange(from, j + 1).last() == s[j]);
        assert(digits_val(s.subrange(from, j + 1)) == digits_val(s.subrange(from, j)) * 10
            + digit_val(s[j]));
        lemma_digits_val_prefix(s, from, j + 1, to);
    }
}

/// The milliseconds one unit code stands for, or `None` for an unknown
/// code.
pub open spec fn unit_ms(u: Seq<char>) -> Option<u64> {
    if u.len() == 1 && u[0] == 'm' {
        Some(60000u64)
    } else if u.len() == 1 && u[0] == 's' {
        Some(1000u64)
    } else if u.len() == 1 && u[0] == 'h' {
        Some(3600000u64)
    } else if u.len() == 1 && u[0] == 'd' {
        Some(86400000u64)
    } else if u.len() == 1 && u[0] == 'w' {
        Some(604800000u64)
    } else if u.len() == 2 && u[0] == 'm' && u[1] == 's' {
        Some(1u64)
    } else if u.len() == 2 && u[0] == 'm' && u[1] == 'o' {
        Some(MONTH_MS)
    } else {
        None
    }
}

pub open spec fn msg_expecting_number(rest: Seq<char>) -> Seq<char> {
    "expecting a number at: '"@ + rest + "'"@
}

pub open spec fn msg_number_too_large() -> Seq<char> {
    "invalid number: number too large to fit in target type"@
}

pub open spec fn msg_unsupported_code(unit: Seq<char>) -> Seq<char> {
    "unsupported duration code: "@ + unit
}

pub open spec fn msg_trailing_junk(rest: Seq<char>) -> Seq<char> {
    "trailing unparsable junk: '"@ + rest + "'"@
}

/// What parsing decides from position `i` on, having accumulated `acc`
/// milliseconds: the total value, or the first error, scanning pairs left
/// to right.  A run whose digits, or whose accumulated sum, cannot be
/// represented is reported like an unparsable number.
pub open spec fn spec_parse_at(s: Seq<char>, i: int, acc: u64) -> Result<u64, Seq<char>>
    decreases s.len() - i,
{
    let d = seek_nondigit(s, i);
    if d >= s.len() {
        if i >= s.len() {
            Ok(acc)
        } else {
            Err(msg_trailing_junk(s.subrange(i, s.len() as int)))
        }
    } else if d <= i {
        Err(msg_expecting_number(s.subrange(i, s.len() as int)))
    } else {
        let num = digits_val(s.subrange(i, d));
        if num > u64::MAX {
            Err(msg_number_too_large())
        } else {
            let u = seek_digit(s, d);
            match unit_ms(s.subrange(d, u)) {
                None => Err(msg_unsupported_code(s.subrange(d, u))),
                Some(m) => {
                    if acc + num * m > u64::MAX {
                        Err(msg_number_too_large())
                    } else {
                        proof {
                            lemma_seek_nondigit(s, i);
                            lemma_seek_digit(s, d);
                        }
                        spec_parse_at(s, u, (acc + num * m) as u64)
                    }
                },
            }
        }
    }
}

/// What `parse_period` returns: the millisecond count of a well-formed
/// duration, or the message describing the first offending fragment.
pub open spec fn spec_parse(s: Seq<char>) -> Result<u64, Seq<char>> {
    spec_parse_at(s, 0, 0u64)
}

fn char_is_digit(c: char) -> (b: bool)
    ensures
        b == is_digit_char(c),
{
    let u = c as u32;
    48 <= u && u <= 57
}

fn scan_nondigit(s: &str, from: usize) -> (r: usize)
    requires
        from <= s@.len(),
    ensures
        r == seek_nondigit(s@, from as int),
        from <= r <= s@.len(),
{
    let n = s.unicode_len();
    let mut i = from;
    while i < n
        invariant
            from <= i <= n,
            n == s@.len(),
            seek_nondigit(s@, from as int) == seek_nondigit(s@, i as int),
        decreases n - i,
    {
        let c = s.get_char(i);
        if !char_is_digit(c) {
            return i;
        }
        i = i + 1;
    }
    i
}

fn scan_digit(s: &str, from: usize) -> (r: usize)
    requires
        from <= s@.len(),
    ensures
        r == seek_digit(s@, from as int),
        from <= r <= s@.len(),
{
    let n = s.unicode_len();
    let mut i = from;
    while i < n
        invariant
            from <= i <= n,
            n == s@.len(),
            seek_digit(s@, from as int) == seek_digit(s@, i as int),
        decreases n - i,
    {
        let c = s.get_char(i);
        if char_is_digit(c) {
            return i;
        }
        i = i + 1;
    }
    i
}

/// Read the digit run `s[from..to]` as a number, or `None` when it does not
/// fit the 64-bit millisecond arithmetic.
fn digits_value(s: &str, from: usize, to: usize) -> (r: Option<u64>)
    requires
        from <= to <= s@.len(),
        forall|k: int| from <= k < to ==> is_digit_char(#[trigger] s@[k]),
    ensures
        r matches Some(v) ==> v == digits_val(s@.subrange(from as int, to as int)),
        r is Some <==> digits_val(s@.subrange(from as int, to as int)) <= u64::MAX,
{
    let mut acc: u64 = 0;
    let mut i = from;
    proof {
        assert(s@.subrange(from as int, from as int) =~= Seq::<char>::empty());
    }
    while i < to
        invariant
            from <= i <= to <= s@.len(),
            forall|k: int| from <= k < to ==> is_digit_char(#[trigger] s@[k]),
            acc == digits_val(s@.subrange(from as int, i as int)),
        decreases to - i,
    {
        let c = s.get_char(i);
        let d = (c as u32 - 48) as u64;
        proof {
            assert(s@.subrange(from as int, i + 1).drop_last() =~= s@.subrange(
                from as int,
                i as int,
            ));
            assert(s@.subrange(from as int, i + 1).last() == s@[i as int]);
        }
        let widened = match acc.checked_mul(10) {
            None => {
                proof {
                    lemma_digits_val_prefix(s@, from as int, i + 1, to as int);
                }
                return None;
            },
            Some(w) => w,
        };
        acc = match widened.checked_add(d) {
            None => {
                proof {
                    lemma_digits_val_prefix(s@, from as int, i + 1, to as int);
                }
                return None;
            },
            Some(v) => v,
        };
        i = i + 1;
    }
    Some(acc)
}

/// Look the unit code `s[from..to]` up in the unit table.
fn unit_value(s: &str, from: usize, to: usize) -> (r: Option<u64>)
    requires
        from <= to <= s@.len(),
    ensures
        r == unit_ms(s@.subrange(from as int, to as int)),
{
    if to - from == 1 {
        let c = s.get_char(from);
        if c == 'm' {
            Some(60000)
        } else if c == 's' {
            Some(1000)
        } else if c == 'h' {
            Some(3600000)
        } else if c == 'd' {
            Some(86400000)
        } else if c == 'w' {
            Some(604800000)
        } else {
            None
        }
    } else if to - from == 2 {
        let c0 = s.get_char(from);
        let c1 = s.get_char(from + 1);
        if c0 == 'm' && c1 == 's' {
            Some(1)
        } else if c0 == 'm' && c1 == 'o' {
            Some(MONTH_MS)
        } else {
            None
        }
    } else {
        None
    }
}

/// Parse a duration into milliseconds, or report the first offending
/// fragment of the text.
pub fn parse_period(period: &str) -> (r: Result<u64, String>)
    ensures
        r matches Ok(v) ==> spec_parse(period@) == Ok::<u64, Seq<char>>(v),
        r matches Err(m) ==> spec_parse(period@) matches Err(e) && m@ == e,
{
    let ghost s = period@;
    let n = period.unicode_len();
    let mut i: usize = 0;
    let mut ms: u64 = 0;
    loop
        invariant
            i <= n,
            n == s.len(),
            s == period@,
            spec_parse(s) == spec_parse_at(s, i as int, ms),
        decreases n - i,
    {
        let d = scan_nondigit(period, i);
        proof {
            lemma_seek_nondigit(s, i as int);
        }
        if d >= n {
            if i >= n {
                return Ok(ms);
            }
            let rest = period.substring_char(i, n);
            let m = String::from_str("trailing unparsable junk: '").concat(rest).concat("'");
            return Err(m);
        }
        if d == i {
            let rest = period.substring_char(i, n);
            let m = String::from_str("expecting a number at: '").concat(rest).concat("'");
            return Err(m);
        }
        let num = match digits_value(period, i, d) {
            None => {
                return Err(
                    String::from_str("invalid number: number too large to fit in target type"),
                );
            },
            Some(v) => v,
        };
        let u = scan_digit(period, d);
        proof {
            lemma_seek_digit(s, d as int);
        }
        let mul = match unit_value(period, d, u) {
            None => {
                let unit = period.substring_char(d, u);
                return Err(String::from_str("unsupported duration code: ").concat(unit));
            },
            Some(m) => m,
        };
        let term = match num.checked_mul(mul) {
            None => {
                return Err(
                    String::from_str("invalid number: number too large to fit in target type"),
                );
            },
            Some(t) => t,
        };
        ms = match ms.checked_add(term) {
            None => {
                return Err(
                    String::from_str("invalid number: number too large to fit in target type"),
                );
            },
            Some(v) => v,
        };
        i = u;
    }
}

} // verus!
