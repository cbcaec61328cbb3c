use vstd::prelude::*;
use crate::errors::FlightError;
use vstd::arithmetic::div_mod::{
    lemma_div_is_ordered, lemma_div_multiples_vanish, lemma_fundamental_div_mod,
    lemma_fundamental_div_mod_converse, lemma_mod_pos_bound, lemma_mod_bound,
};

verus! {

/// Sum of a series of nanounit values, as an unbounded integer.
pub open spec fn seq_sum(s: Seq<i64>) -> int
    decreases s.len(),
{
    if s.len() == 0 {
        0
    } else {
        seq_sum(s.drop_last()) + s.last()
    }
}

/// Sum of the `w` consecutive values starting at index `k`.
pub open spec fn window_sum(s: Seq<i64>, k: int, w: int) -> int {
    seq_sum(s.subrange(k, k + w))
}

/// The trailing moving average of `s` with window `w`: one element per
/// window position, each the floor of the exact mean of its window.
pub open spec fn smoothed_spec(s: Seq<i64>, w: int) -> Seq<int> {
    Seq::new((s.len() - w + 1) as nat, |k: int| window_sum(s, k, w) / w)
}

/// Floor division of a window sum by the window width.
fn div_floor(sum: i128, w: u64) -> (q: i64)
    requires
        1 <= w,
        (i64::MIN as int) * (w as int) <= sum <= (i64::MAX as int) * (w as int),
    ensures
        q as int == sum as int / (w as int),
{
    let wi: u128 = w as u128;
    if sum >= 0 {
        let qm: u128 = (sum as u128) / wi;
        proof {
            assert(qm == (sum as int) / (w as int));
            lemma_div_is_ordered(sum as int, (i64::MAX as int) * (w as int), w as int);
            lemma_div_multiples_vanish(i64::MAX as int, w as int);
            assert(((w as int) * (i64::MAX as int)) / (w as int) == i64::MAX as int);
            assert((i64::MAX as int) * (w as int) == (w as int) * (i64::MAX as int))
                by (nonlinear_arith);
            assert(qm <= i64::MAX as int);
        }
        qm as i64
    } else {
        let m: u128 = (-sum) as u128;
        let qm: u128 = m / wi;
        let rm: u128 = m % wi;
        proof {
            assert(m == -(sum as int));
            assert(qm == (m as int) / (w as int));
            assert(rm == (m as int) % (w as int));
            lemma_fundamental_div_mod(m as int, w as int);
            assert(m as int == (w as int) * (qm as int) + (rm as int));
            // bound qm so the negated quotient fits an i64
            assert((qm as int) * (w as int) <= m as int) by (nonlinear_arith)
                requires
                    m as int == (w as int) * (qm as int) + (rm as int),
                    rm >= 0,
            ;
            assert(m as int <= (i64::MAX as int + 1) * (w as int)) by (nonlinear_arith)
                requires
                    (i64::MIN as int) * (w as int) <= sum,
                    m as int == -(sum as int),
                    i64::MIN as int == -(i64::MAX as int) - 1,
            ;
            assert(qm as int <= i64::MAX as int + 1) by (nonlinear_arith)
                requires
                    (qm as int) * (w as int) <= m as int,
                    m as int <= (i64::MAX as int + 1) * (w as int),
                    w >= 1,
            ;
        }
        if rm == 0 {
            proof {
                assert(sum as int == ((-(qm as int)) * (w as int)) + 0) by (nonlinear_arith)
                    requires
                        m as int == (w as int) * (qm as int),
                        sum as int == -(m as int),
                ;
                lemma_fundamental_div_mod_converse(sum as int, w as int, -(qm as int), 0);
            }
            let qneg: i128 = -(qm as i128);
            qneg as i64
        } else {
            proof {
                assert(sum as int == ((-(qm as int) - 1) * (w as int)) + ((w as int) - (
                rm as int))) by (nonlinear_arith)
                    requires
                        m as int == (w as int) * (qm as int) + (rm as int),
                        sum as int == -(m as int),
                ;
                lemma_mod_pos_bound(m as int, w as int);
                assert(0 < (w as int) - (rm as int) < w as int);
                lemma_fundamental_div_mod_converse(
                    sum as int,
                    w as int,
                    -(qm as int) - 1,
                    (w as int) - (rm as int),
                );
                // with a remainder left, the quotient is strictly under the cap
                assert(qm as int <= i64::MAX as int) by (nonlinear_arith)
                    requires
                        (qm as int) * (w as int) < m as int,
                        m as int <= (i64::MAX as int + 1) * (w as int),
                        w >= 1,
                ;
            }
            let qneg: i128 = -(qm as i128) - 1;
            qneg as i64
        }
    }
}

/// Trailing windowed moving average over a nanounit series.
///
/// Element `k` of the result is the floor of the exact mean of
/// `series[k .. k + window]`, so the result is right-aligned: its
/// element `k` belongs with timestamp index `k + window - 1`. A window
/// of one returns the series unchanged; a window longer than the
/// series is reported as `WindowTooLarge`.
pub fn moving_average(series: &Vec<i64>, window: usize) -> (r: Result<Vec<i64>, FlightError>)
    requires
        1 <= window,
    ensures
        match r {
            Ok(out) => {
                &&& window <= series@.len()
                &&& out@.len() == series@.len() - window + 1
                &&& forall|k: int|
                    0 <= k < out@.len() ==> out@[k] as int == smoothed_spec(
                        series@,
                        window as int,
                    )[k]
                &&& window == 1 ==> out@ == series@
            },
            Err(e) => e == FlightError::WindowTooLarge && window > series@.len(),
        },
{
    let n = series.len();
    if window > n {
        return Err(FlightError::WindowTooLarge);
    }
    let mut out: Vec<i64> = Vec::new();
    let count = n - window + 1;
    let mut k: usize = 0;
    while k < count
        invariant
            1 <= window <= n,
            n == series@.len(),
            count == n - window + 1,
            k <= count,
            out@.len() == k,
            forall|kk: int|
                0 <= kk < k ==> out@[kk] as int == smoothed_spec(series@, window as int)[kk],
        decreases count - k,
    {
        let mut sum: i128 = 0;
        let mut j: usize = k;
        proof {
            assert(series@.subrange(k as int, k as int) =~= Seq::<i64>::empty());
        }
        while j < k + window
            invariant
                1 <= window <= n,
                n == series@.len(),
                k <= j <= k + window,
                k + window <= n,
                sum == seq_sum(series@.subrange(k as int, j as int)),
                (j - k) * (i64::MIN as int) <= sum <= (j - k) * (i64::MAX as int),
            decreases k + window - j,
        {
            let x = series[j];
            proof {
                let pre = series@.subrange(k as int, j as int);
                let post = series@.subrange(k as int, j as int + 1);
                assert(post.drop_last() =~= pre);
                assert(post.last() == series@[j as int]);
            }
            sum = sum + (x as i128);
            j = j + 1;
        }
        let q = div_floor(sum, window as u64);
        proof {
            assert(sum == window_sum(series@, k as int, window as int));
            assert(q as int == smoothed_spec(series@, window as int)[k as int]);
        }
        out.push(q);
        k = k + 1;
    }
    proof {
        if window == 1 {
            assert forall|kk: int| 0 <= kk < out@.len() implies out@[kk] == series@[kk] by {
                let q = series@.subrange(kk, kk + 1);
                assert(q.last() == series@[kk]);
                assert(q.drop_last() =~= Seq::<i64>::empty());
                assert(seq_sum(Seq::<i64>::empty()) == 0);
                assert(seq_sum(q) == seq_sum(q.drop_last()) + q.last());
                assert(seq_sum(q) == series@[kk] as int);
                assert(out@[kk] as int == seq_sum(q) / 1);
                lemma_div_multiples_vanish(seq_sum(q), 1);
                assert((1int * seq_sum(q)) / 1int == seq_sum(q));
                assert(1int * seq_sum(q) == seq_sum(q)) by (nonlinear_arith);
            }
            assert(out@ =~= series@);
        }
    }
    Ok(out)
}

/// The mean law of the moving average: the series of means has one
/// element per window position, and each element is the exact window
/// mean rounded down — the quotient times the window recovers the
/// window sum up to a remainder below the window, and recovers it
/// exactly whenever the window divides the sum.
pub proof fn lemma_smoothed_window_mean(s: Seq<i64>, w: int, k: int)
    requires
        1 <= w <= s.len(),
        0 <= k <= s.len() - w,
    ensures
        smoothed_spec(s, w).len() == s.len() - w + 1,
        w * smoothed_spec(s, w)[k] <= window_sum(s, k, w) < w * smoothed_spec(s, w)[k] + w,
        window_sum(s, k, w) % w == 0 ==> w * smoothed_spec(s, w)[k] == window_sum(s, k, w),
{
    let x = window_sum(s, k, w);
    lemma_fundamental_div_mod(x, w);
    lemma_mod_bound(x, w);
    assert(smoothed_spec(s, w)[k] == x / w);
    assert(x == w * (x / w) + x % w);
}

} // verus!
