use vstd::prelude::*;
use vstd::string::StrSliceExecFns;
use crate::numeric::{
    is_digit, digit_val, digits_val, all_digits, pow10, char_digit, pow10_u64, scan_digits,
    lemma_pow10_le, lemma_pow10_values, lemma_pow10_add, lemma_digits_val_bounds,
};

verus! {

/// A UTC instant with nanosecond precision, as plain calendar fields.
#[derive(Clone, Copy, Debug, PartialEq, Eq, Structural)]
pub struct Timestamp {
    pub year: u32,
    pub month: u32,
    pub day: u32,
    pub hour: u32,
    pub minute: u32,
    pub second: u32,
    pub nanos: u32,
}

/// The Gregorian leap-year rule.
pub open spec fn is_leap_year(y: int) -> bool {
    y % 4 == 0 && (y % 100 != 0 || y % 400 == 0)
}

/// Days in a month of the Gregorian calendar.
pub open spec fn days_in_month(y: int, m: int) -> int {
    if m == 2 {
        if is_leap_year(y) {
            29
        } else {
            28
        }
    } else if m == 4 || m == 6 || m == 9 || m == 11 {
        30
    } else {
        31
    }
}

impl Timestamp {
    /// A well-formed instant: fields within calendar ranges.
    pub open spec fn wf(self) -> bool {
        &&& self.year <= 9999
        &&& 1 <= self.month <= 12
        &&& 1 <= self.day <= days_in_month(self.year as int, self.month as int)
        &&& self.hour <= 23
        &&& self.minute <= 59
        &&& self.second <= 59
        &&& self.nanos < 1_000_000_000
    }
}

/// The fixed textual layout `YYYY-MM-DD HH:MM:SS.f`, with one to nine
/// fraction digits.
pub open spec fn ts_layout(s: Seq<char>) -> bool {
    &&& 21 <= s.len() <= 29
    &&& is_digit(s[0]) && is_digit(s[1]) && is_digit(s[2]) && is_digit(s[3])
    &&& s[4] == '-' && is_digit(s[5]) && is_digit(s[6])
    &&& s[7] == '-' && is_digit(s[8]) && is_digit(s[9])
    &&& s[10] == ' ' && is_digit(s[11]) && is_digit(s[12])
    &&& s[13] == ':' && is_digit(s[14]) && is_digit(s[15])
    &&& s[16] == ':' && is_digit(s[17]) && is_digit(s[18])
    &&& s[19] == '.'
    &&& all_digits(s.skip(20))
}

pub open spec fn ts_year(s: Seq<char>) -> int {
    digits_val(s.subrange(0, 4))
}

pub open spec fn ts_month(s: Seq<char>) -> int {
    digits_val(s.subrange(5, 7))
}

pub open spec fn ts_day(s: Seq<char>) -> int {
    digits_val(s.subrange(8, 10))
}

pub open spec fn ts_hour(s: Seq<char>) -> int {
    digits_val(s.subrange(11, 13))
}

pub open spec fn ts_minute(s: Seq<char>) -> int {
    digits_val(s.subrange(14, 16))
}

pub open spec fn ts_second(s: Seq<char>) -> int {
    digits_val(s.subrange(17, 19))
}

/// The fraction digits scaled to nanoseconds.
pub open spec fn ts_nanos(s: Seq<char>) -> int {
    digits_val(s.skip(20)) * pow10((9 - (s.len() - 20)) as nat)
}

/// The timestamp texts the core accepts: the fixed layout with all
/// calendar fields in range, read as UTC.
pub open spec fn valid_timestamp(s: Seq<char>) -> bool {
    &&& ts_layout(s)
    &&& 1 <= ts_month(s) <= 12
    &&& 1 <= ts_day(s) <= days_in_month(ts_year(s), ts_month(s))
    &&& ts_hour(s) <= 23
    &&& ts_minute(s) <= 59
    &&& ts_second(s) <= 59
}

/// The instant a valid timestamp text denotes.
pub open spec fn timestamp_of(s: Seq<char>) -> Timestamp {
    Timestamp {
        year: ts_year(s) as u32,
        month: ts_month(s) as u32,
        day: ts_day(s) as u32,
        hour: ts_hour(s) as u32,
        minute: ts_minute(s) as u32,
        second: ts_second(s) as u32,
        nanos: ts_nanos(s) as u32,
    }
}

/// Reads the two digits of `s` at `at` as one number.
fn read2(s: &str, at: usize, n: usize) -> (r: Option<u32>)
    requires
        n == s@.len(),
        at + 2 <= n,
    ensures
        match r {
            Some(v) => {
                &&& is_digit(s@[at as int]) && is_digit(s@[at + 1])
                &&& v < 100
                &&& v as int == digits_val(s@.subrange(at as int, at + 2))
            },
            None => !(is_digit(s@[at as int]) && is_digit(s@[at + 1])),
        },
{
    let c0 = s.get_char(at);
    let c1 = s.get_char(at + 1);
    match (char_digit(c0), char_digit(c1)) {
        (Some(d0), Some(d1)) => {
            proof {
                let q = s@.subrange(at as int, at + 2);
                let q1 = s@.subrange(at as int, at + 1);
                assert(q.drop_last() =~= q1);
                assert(q.last() == s@[at + 1]);
                assert(q1.drop_last() =~= Seq::<char>::empty());
                assert(q1.last() == s@[at as int]);
                assert(digits_val(Seq::<char>::empty()) == 0);
                assert(digits_val(q1) == digit_val(s@[at as int]));
                assert(digits_val(q) == digit_val(s@[at as int]) * 10 + digit_val(s@[at + 1]));
            }
            Some((d0 as u32) * 10 + (d1 as u32))
        },
        _ => None,
    }
}

/// The value of four digits split as two two-digit reads.
proof fn lemma_digits4(s: Seq<char>, at: int)
    requires
        0 <= at,
        at + 4 <= s.len(),
    ensures
        digits_val(s.subrange(at, at + 4)) == digits_val(s.subrange(at, at + 2)) * 100
            + digits_val(s.subrange(at + 2, at + 4)),
{
    let q = s.subrange(at, at + 4);
    let a = s.subrange(at, at + 2);
    let b = s.subrange(at + 2, at + 4);
    assert(q =~= a + b);
    crate::numeric::lemma_digits_val_concat(a, b);
    lemma_pow10_values();
}

/// Checks one separator character of the layout.
fn sep_at(s: &str, at: usize, n: usize, c: char) -> (r: bool)
    requires
        n == s@.len(),
        at < n,
    ensures
        r == (s@[at as int] == c),
{
    s.get_char(at) == c
}

/// Executable Gregorian leap-year rule.
fn leap_year(y: u32) -> (r: bool)
    ensures
        r == is_leap_year(y as int),
{
    y % 4 == 0 && (y % 100 != 0 || y % 400 == 0)
}

/// Executable days-in-month rule.
fn month_days(y: u32, m: u32) -> (r: u32)
    ensures
        r as int == days_in_month(y as int, m as int),
{
    if m == 2 {
        if leap_year(y) {
            29
        } else {
            28
        }
    } else if m == 4 || m == 6 || m == 9 || m == 11 {
        30
    } else {
        31
    }
}

/// Parses a timestamp text of the fixed UTC layout into its calendar
/// fields. Accepts exactly the texts `valid_timestamp` describes and
/// returns exactly the instant `timestamp_of` denotes.
#[verifier::rlimit(100)]
pub fn parse_timestamp(s: &str) -> (r: Option<Timestamp>)
    ensures
        match r {
            Some(t) => valid_timestamp(s@) && t == timestamp_of(s@) && t.wf(),
            None => !valid_timestamp(s@),
        },
{
    let n = s.unicode_len();
    if n < 21 || n > 29 {
        return None;
    }
    if !(sep_at(s, 4, n, '-') && sep_at(s, 7, n, '-') && sep_at(s, 10, n, ' ') && sep_at(
        s,
        13,
        n,
        ':',
    ) && sep_at(s, 16, n, ':') && sep_at(s, 19, n, '.')) {
        return None;
    }
    let yh = match read2(s, 0, n) {
        Some(v) => v,
        None => {
            return None;
        },
    };
    let yl = match read2(s, 2, n) {
        Some(v) => v,
        None => {
            return None;
        },
    };
    let year: u32 = yh * 100 + yl;
    proof {
        lemma_digits4(s@, 0);
    }
    let month = match read2(s, 5, n) {
        Some(v) => v,
        None => {
            return None;
        },
    };
    let day = match read2(s, 8, n) {
        Some(v) => v,
        None => {
            return None;
        },
    };
    let hour = match read2(s, 11, n) {
        Some(v) => v,
        None => {
            return None;
        },
    };
    let minute = match read2(s, 14, n) {
        Some(v) => v,
        None => {
            return None;
        },
    };
    let second = match read2(s, 17, n) {
        Some(v) => v,
        None => {
            return None;
        },
    };
    if month < 1 || month > 12 {
        return None;
    }
    if day < 1 || day > month_days(year, month) {
        return None;
    }
    if hour > 23 || minute > 59 || second > 59 {
        return None;
    }
    let fscanned = match scan_digits(s, 20, n) {
        Some(p) => p,
        None => {
            // would need ten fraction digits, but at most nine fit
            return None;
        },
    };
    let (fmag, fcount): (u64, usize) = fscanned;
    if 20 + fcount < n {
        // a non-digit character among the fraction digits
        proof {
            assert(!is_digit(s@[20 + fcount]));
            assert(s@.skip(20)[fcount as int] == s@[20 + fcount]);
            assert(!all_digits(s@.skip(20)));
        }
        return None;
    }
    proof {
        assert(s@.skip(20) =~= s@.subrange(20, n as int));
        lemma_digits_val_bounds(s@.skip(20));
        lemma_pow10_le(fcount as nat, 9);
        lemma_pow10_le((9 - fcount) as nat, 9);
        lemma_pow10_add(fcount as nat, (9 - fcount) as nat);
        assert((fmag as int) * pow10((9 - fcount) as nat) < pow10(fcount as nat) * pow10(
            (9 - fcount) as nat)) by (nonlinear_arith)
            requires
                (fmag as int) < pow10(fcount as nat),
                pow10((9 - fcount) as nat) >= 1,
        ;
        lemma_pow10_values();
        assert(fcount == s@.skip(20).len());
        assert(digits_val(s@.skip(20)) == fmag as int);
    }
    let mult: u64 = pow10_u64(9 - (fcount as u64));
    let nanos: u32 = (fmag * mult) as u32;
    proof {
        assert(nanos as int == ts_nanos(s@));
        assert(valid_timestamp(s@));
    }
    let t = Timestamp { year, month, day, hour, minute, second, nanos };
    proof {
        assert(t == timestamp_of(s@));
    }
    Some(t)
}

} // verus!
