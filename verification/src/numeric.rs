use vstd::prelude::*;
use vstd::string::StrSliceExecFns;

verus! {

/// Nanounits per whole unit: every sample value is held as a signed
/// count of 10^-9 units, so decimal field text converts exactly.
pub const SCALE: i64 = 1_000_000_000;

/// Whether `c` is an ASCII decimal digit.
pub open spec fn is_digit(c: char) -> bool {
    '0' as int <= c as int && c as int <= '9' as int
}

/// Numeric value of a digit character.
pub open spec fn digit_val(c: char) -> int {
    c as int - '0' as int
}

/// Whether every character of `s` is a decimal digit.
pub open spec fn all_digits(s: Seq<char>) -> bool {
    forall|i: int| 0 <= i < s.len() ==> is_digit(#[trigger] s[i])
}

/// Value of a digit string read most significant digit first.
pub open spec fn digits_val(s: Seq<char>) -> int
    decreases s.len(),
{
    if s.len() == 0 {
        0
    } else {
        digits_val(s.drop_last()) * 10 + digit_val(s.last())
    }
}

/// Number of leading digit characters of `s`.
pub open spec fn digit_prefix_len(s: Seq<char>) -> int
    decreases s.len(),
{
    if s.len() == 0 || !is_digit(s[0]) {
        0
    } else {
        1 + digit_prefix_len(s.skip(1))
    }
}

/// 10 raised to `n`.
pub open spec fn pow10(n: nat) -> int
    decreases n,
{
    if n == 0 {
        1
    } else {
        10 * pow10((n - 1) as nat)
    }
}

/// The digits of a decimal literal, with any leading minus sign removed.
pub open spec fn decimal_body(s: Seq<char>) -> Seq<char> {
    if s.len() > 0 && s[0] == '-' {
        s.skip(1)
    } else {
        s
    }
}

/// The sign a decimal literal denotes.
pub open spec fn decimal_sign(s: Seq<char>) -> int {
    if s.len() > 0 && s[0] == '-' {
        -1
    } else {
        1
    }
}

/// The decimal literals the core accepts: an optional minus sign, one
/// to nine integer digits, then optionally a dot and one to nine
/// fraction digits. Such a literal always converts exactly to an
/// in-range count of nanounits.
pub open spec fn valid_decimal(s: Seq<char>) -> bool {
    let b = decimal_body(s);
    let k = digit_prefix_len(b);
    &&& 1 <= k <= 9
    &&& (k == b.len() || {
        &&& b[k] == '.'
        &&& k + 2 <= b.len() <= k + 10
        &&& all_digits(b.skip(k + 1))
    })
}

/// The exact value in nanounits that a valid decimal literal denotes.
pub open spec fn decimal_nanos(s: Seq<char>) -> int {
    let b = decimal_body(s);
    let k = digit_prefix_len(b);
    let whole = digits_val(b.subrange(0, k));
    let frac = if k == b.len() {
        0int
    } else {
        digits_val(b.skip(k + 1)) * pow10((9 - (b.len() - k - 1)) as nat)
    };
    decimal_sign(s) * (whole * SCALE + frac)
}

pub proof fn lemma_pow10_le(a: nat, b: nat)
    requires
        a <= b,
    ensures
        1 <= pow10(a) <= pow10(b),
    decreases b,
{
    if b == 0 {
    } else if a == b {
        lemma_pow10_le((a - 1) as nat, (b - 1) as nat);
    } else {
        lemma_pow10_le(a, (b - 1) as nat);
    }
}

/// Concrete powers of ten up to the nanounit scale.
pub proof fn lemma_pow10_values()
    ensures
        pow10(0) == 1,
        pow10(1) == 10,
        pow10(2) == 100,
        pow10(3) == 1000,
        pow10(4) == 10000,
        pow10(5) == 100000,
        pow10(6) == 1000000,
        pow10(7) == 10000000,
        pow10(8) == 100000000,
        pow10(9) == 1000000000,
{
    assert(pow10(0) == 1);
    assert(pow10(1) == 10);
    assert(pow10(2) == 100);
    assert(pow10(3) == 1000);
    assert(pow10(4) == 10000);
    assert(pow10(5) == 100000);
    assert(pow10(6) == 1000000);
    assert(pow10(7) == 10000000);
    assert(pow10(8) == 100000000);
    assert(pow10(9) == 1000000000);
}

pub proof fn lemma_pow10_add(a: nat, b: nat)
    ensures
        pow10(a + b) == pow10(a) * pow10(b),
    decreases a,
{
    if a == 0 {
    } else {
        lemma_pow10_add((a - 1) as nat, b);
        assert((a + b - 1) as nat == (a - 1) as nat + b);
        assert(pow10(a + b) == 10 * pow10((a + b - 1) as nat));
        assert(pow10(a) * pow10(b) == 10 * (pow10((a - 1) as nat) * pow10(b)))
            by (nonlinear_arith)
            requires pow10(a) == 10 * pow10((a - 1) as nat),
        ;
    }
}

/// Concatenating digit strings shifts the left part by a power of ten.
pub proof fn lemma_digits_val_concat(a: Seq<char>, b: Seq<char>)
    ensures
        digits_val(a + b) == digits_val(a) * pow10(b.len()) + digits_val(b),
    decreases b.len(),
{
    if b.len() == 0 {
        assert(a + b =~= a);
        assert(digits_val(b) == 0);
        assert(pow10(0) == 1);
    } else {
        lemma_digits_val_concat(a, b.drop_last());
        assert((a + b).drop_last() =~= a + b.drop_last());
        assert((a + b).last() == b.last());
        assert(digits_val(a + b) == digits_val(a + b.drop_last()) * 10 + digit_val(b.last()));
        assert(digits_val(b) == digits_val(b.drop_last()) * 10 + digit_val(b.last()));
        assert(pow10(b.len()) == 10 * pow10((b.len() - 1) as nat));
        assert((digits_val(a) * pow10((b.len() - 1) as nat) + digits_val(b.drop_last())) * 10
            == digits_val(a) * pow10(b.len()) + digits_val(b.drop_last()) * 10)
            by (nonlinear_arith)
            requires pow10(b.len()) == 10 * pow10((b.len() - 1) as nat),
        ;
    }
}

pub proof fn lemma_digits_val_bounds(s: Seq<char>)
    requires
        all_digits(s),
    ensures
        0 <= digits_val(s) < pow10(s.len()),
    decreases s.len(),
{
    if s.len() == 0 {
    } else {
        assert(all_digits(s.drop_last()));
        lemma_digits_val_bounds(s.drop_last());
        assert(is_digit(s.last()));
        assert(pow10(s.len()) == 10 * pow10((s.len() - 1) as nat));
    }
}

pub proof fn lemma_digit_prefix_nonneg(s: Seq<char>)
    ensures
        digit_prefix_len(s) >= 0,
    decreases s.len(),
{
    if s.len() == 0 || !is_digit(s[0]) {
    } else {
        lemma_digit_prefix_nonneg(s.skip(1));
    }
}

/// If the first `j` characters of `s` are digits, at least `j`
/// characters lead its digit prefix.
pub proof fn lemma_digit_prefix_at_least(s: Seq<char>, j: int)
    requires
        0 <= j <= s.len(),
        forall|i: int| 0 <= i < j ==> is_digit(#[trigger] s[i]),
    ensures
        digit_prefix_len(s) >= j,
    decreases j,
{
    if j == 0 {
        lemma_digit_prefix_nonneg(s);
    } else {
        assert(is_digit(s[0]));
        assert forall|i: int| 0 <= i < j - 1 implies is_digit(#[trigger] s.skip(1)[i]) by {
            assert(s.skip(1)[i] == s[i + 1]);
        }
        lemma_digit_prefix_at_least(s.skip(1), j - 1);
        assert(digit_prefix_len(s) == 1 + digit_prefix_len(s.skip(1)));
    }
}

/// If the first `j` characters of `s` are digits and the next one is
/// not (or `s` ends there), the digit prefix is exactly `j` long.
pub proof fn lemma_digit_prefix_exact(s: Seq<char>, j: int)
    requires
        0 <= j <= s.len(),
        forall|i: int| 0 <= i < j ==> is_digit(#[trigger] s[i]),
        j == s.len() || !is_digit(s[j]),
    ensures
        digit_prefix_len(s) == j,
    decreases j,
{
    if j == 0 {
    } else {
        assert(is_digit(s[0]));
        assert forall|i: int| 0 <= i < j - 1 implies is_digit(#[trigger] s.skip(1)[i]) by {
            assert(s.skip(1)[i] == s[i + 1]);
        }
        if j < s.len() {
            assert(s.skip(1)[j - 1] == s[j]);
        }
        assert(j - 1 == s.skip(1).len() || !is_digit(s.skip(1)[j - 1]));
        lemma_digit_prefix_exact(s.skip(1), j - 1);
    }
}

/// Digit test and value for one character.
pub(crate) fn char_digit(c: char) -> (r: Option<u8>)
    ensures
        match r {
            Some(d) => is_digit(c) && d < 10 && d as int == digit_val(c),
            None => !is_digit(c),
        },
{
    let u = c as u32;
    if 48 <= u && u <= 57 {
        Some((u - 48) as u8)
    } else {
        None
    }
}

/// 10 raised to `n`, executable.
pub(crate) fn pow10_u64(n: u64) -> (r: u64)
    requires
        n <= 9,
    ensures
        r as int == pow10(n as nat),
{
    let mut r: u64 = 1;
    let mut j: u64 = 0;
    while j < n
        invariant
            j <= n <= 9,
            r as int == pow10(j as nat),
        decreases n - j,
    {
        proof {
            lemma_pow10_le(j as nat, 8);
            lemma_pow10_values();
            assert(pow10((j + 1) as nat) == 10 * pow10(j as nat));
        }
        r = r * 10;
        j = j + 1;
    }
    r
}

/// Scans digits of `s` from `from`, at most nine of them, and returns
/// their count and value; reports `None` when a tenth digit follows.
pub(crate) fn scan_digits(s: &str, from: usize, n: usize) -> (r: Option<(u64, usize)>)
    requires
        n == s@.len(),
        from <= n,
    ensures
        match r {
            Some(p) => {
                let stop = from + p.1;
                &&& from <= stop <= n
                &&& p.1 <= 9
                &&& (forall|x: int| from <= x < stop ==> is_digit(#[trigger] s@[x]))
                &&& (stop == n || !is_digit(s@[stop as int]))
                &&& p.0 as int == digits_val(s@.subrange(from as int, stop as int))
                &&& p.0 < pow10(p.1 as nat)
            },
            None => {
                &&& from + 10 <= n
                &&& forall|x: int| from <= x < from + 10 ==> is_digit(#[trigger] s@[x])
            },
        },
{
    let mut i: usize = from;
    let mut mag: u64 = 0;
    let mut stop: bool = false;
    while i < n && !stop
        invariant
            n == s@.len(),
            from <= i <= n,
            i - from <= 9,
            forall|x: int| from <= x < i ==> is_digit(#[trigger] s@[x]),
            mag as int == digits_val(s@.subrange(from as int, i as int)),
            mag < pow10((i - from) as nat),
            stop ==> i < n && !is_digit(s@[i as int]),
        decreases n - i, (if stop { 0int } else { 1int }),
    {
        let c = s.get_char(i);
        match char_digit(c) {
            Some(d) => {
                if i - from == 9 {
                    proof {
                        assert(forall|x: int| from <= x < from + 10 ==> is_digit(#[trigger] s@[x]));
                    }
                    return None;
                }
                proof {
                    let pre = s@.subrange(from as int, i as int);
                    let post = s@.subrange(from as int, i as int + 1);
                    assert(post.drop_last() =~= pre);
                    assert(post.last() == s@[i as int]);
                    lemma_pow10_le((i - from) as nat, 8);
                    lemma_pow10_values();
                    assert(pow10((i + 1 - from) as nat) == 10 * pow10((i - from) as nat));
                }
                mag = mag * 10 + (d as u64);
                i = i + 1;
            },
            None => {
                stop = true;
            },
        }
    }
    Some((mag, i - from))
}

/// Combines whole and fraction nanounit parts under a sign.
fn compose_nanos(neg: bool, mag: u64, fscaled: u64) -> (v: i64)
    requires
        mag < 1_000_000_000,
        fscaled < 1_000_000_000,
    ensures
        v as int == (if neg { -1int } else { 1int }) * ((mag as int) * 1_000_000_000
            + (fscaled as int)),
{
    let m: i64 = mag as i64;
    let f: i64 = fscaled as i64;
    let nanos: i64 = m * 1_000_000_000 + f;
    proof {
        assert(m as int == mag as int);
        assert(f as int == fscaled as int);
        assert(nanos as int == (mag as int) * 1_000_000_000 + (fscaled as int));
    }
    if neg {
        let w: i64 = -nanos;
        proof {
            assert(nanos >= 0);
            assert(w as int == -(nanos as int));
            assert(w as int == -1int * ((mag as int) * 1_000_000_000 + (fscaled as int)))
                by (nonlinear_arith)
                requires
                    w as int == -(nanos as int),
                    nanos as int == (mag as int) * 1_000_000_000 + (fscaled as int),
            ;
        }
        w
    } else {
        nanos
    }
}

/// Parses a decimal literal into an exact signed count of nanounits.
/// Accepts exactly the strings `valid_decimal` describes and returns
/// exactly the value `decimal_nanos` denotes.
#[verifier::rlimit(100)]
pub fn parse_scaled(s: &str) -> (r: Option<i64>)
    ensures
        match r {
            Some(v) => valid_decimal(s@) && v as int == decimal_nanos(s@),
            None => !valid_decimal(s@),
        },
{
    let n = s.unicode_len();
    if n == 0 {
        return None;
    }
    let neg = s.get_char(0) == '-';
    let start: usize = if neg { 1 } else { 0 };
    let ghost b = decimal_body(s@);
    proof {
        assert(b =~= s@.subrange(start as int, n as int));
    }
    let scanned = match scan_digits(s, start, n) {
        Some(p) => p,
        None => {
            proof {
                assert forall|x: int| 0 <= x < 10 implies is_digit(#[trigger] b[x]) by {
                    assert(b[x] == s@[x + start]);
                }
                lemma_digit_prefix_at_least(b, 10);
            }
            return None;
        },
    };
    let (mag, count): (u64, usize) = scanned;
    let i: usize = start + count;
    proof {
        assert forall|x: int| 0 <= x < count implies is_digit(#[trigger] b[x]) by {
            assert(b[x] == s@[x + start]);
        }
        if count < n - start {
            assert(b[count as int] == s@[i as int]);
        }
        lemma_digit_prefix_exact(b, count as int);
        assert(b.subrange(0, count as int) =~= s@.subrange(start as int, i as int));
        lemma_digits_val_bounds(b.subrange(0, count as int));
        lemma_pow10_le(count as nat, 9);
        lemma_pow10_values();
        assert(digits_val(b.subrange(0, count as int)) == mag as int);
        assert(mag < 1_000_000_000);
    }
    if count == 0 {
        return None;
    }
    if i == n {
        // no fraction part
        let v = compose_nanos(neg, mag, 0);
        proof {
            assert(count == b.len());
            assert(valid_decimal(s@));
            assert(decimal_sign(s@) == (if neg { -1int } else { 1int }));
            assert(decimal_nanos(s@) == decimal_sign(s@) * ((mag as int) * 1_000_000_000 + 0));
            assert(v as int == decimal_nanos(s@));
        }
        return Some(v);
    }
    if s.get_char(i) != '.' {
        proof {
            assert(b[count as int] != '.');
        }
        return None;
    }
    let fstart: usize = i + 1;
    if fstart == n {
        // the dot ends the text
        return None;
    }
    let fscanned = match scan_digits(s, fstart, n) {
        Some(p) => p,
        None => {
            // ten or more fraction digits: the body is too long
            return None;
        },
    };
    let (fmag, fcount): (u64, usize) = fscanned;
    let fi: usize = fstart + fcount;
    if fcount == 0 {
        // no digit directly after the dot
        proof {
            assert(!is_digit(s@[fstart as int]));
            assert(b.skip(count + 1)[0] == s@[fstart as int]);
            assert(!all_digits(b.skip(count + 1)));
        }
        return None;
    }
    if fi < n {
        // a non-digit character inside the fraction part
        proof {
            assert(!is_digit(s@[fi as int]));
            assert(b.skip(count + 1)[fi - fstart as int] == s@[fi as int]);
            assert(!all_digits(b.skip(count + 1)));
        }
        return None;
    }
    proof {
        assert(b.skip(count + 1) =~= s@.subrange(fstart as int, n as int));
        lemma_digits_val_bounds(b.skip(count + 1));
        lemma_pow10_le(fcount as nat, 9);
        lemma_pow10_le((9 - fcount) as nat, 9);
        lemma_pow10_add(fcount as nat, (9 - fcount) as nat);
        assert((fmag as int) * pow10((9 - fcount) as nat) < pow10(fcount as nat) * pow10(
            (9 - fcount) as nat)) by (nonlinear_arith)
            requires
                (fmag as int) < pow10(fcount as nat),
                pow10((9 - fcount) as nat) >= 1,
        ;
        assert(pow10(fcount as nat) * pow10((9 - fcount) as nat) == 1_000_000_000);
        assert(valid_decimal(s@));
    }
    let mult: u64 = pow10_u64(9 - (fcount as u64));
    let fscaled: u64 = fmag * mult;
    let v = compose_nanos(neg, mag, fscaled);
    proof {
        assert(b.len() - count - 1 == fcount);
        assert(digits_val(b.skip(count + 1)) == fmag as int);
        assert(fscaled as int == digits_val(b.skip(count + 1)) * pow10((9 - fcount) as nat));
        assert(decimal_sign(s@) == (if neg { -1int } else { 1int }));
        assert(decimal_nanos(s@) == decimal_sign(s@) * ((mag as int) * 1_000_000_000
            + (fscaled as int)));
        assert(v as int == decimal_nanos(s@));
    }
    Some(v)
}


} // verus!
