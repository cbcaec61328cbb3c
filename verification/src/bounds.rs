use vstd::prelude::*;

verus! {

/// Minimum of a nonempty nanounit series.
pub open spec fn seq_min(s: Seq<i64>) -> int
    recommends
        s.len() >= 1,
    decreases s.len(),
{
    if s.len() <= 1 {
        s[0] as int
    } else {
        let rest = seq_min(s.drop_last());
        if (s.last() as int) < rest {
            s.last() as int
        } else {
            rest
        }
    }
}

/// Maximum of a nonempty nanounit series.
pub open spec fn seq_max(s: Seq<i64>) -> int
    recommends
        s.len() >= 1,
    decreases s.len(),
{
    if s.len() <= 1 {
        s[0] as int
    } else {
        let rest = seq_max(s.drop_last());
        if (s.last() as int) > rest {
            s.last() as int
        } else {
            rest
        }
    }
}

/// The bounds of a nonempty series are attained by elements and
/// enclose every element.
pub proof fn lemma_bounds_characterize(s: Seq<i64>)
    requires
        s.len() >= 1,
    ensures
        exists|i: int| 0 <= i < s.len() && s[i] as int == seq_min(s),
        exists|i: int| 0 <= i < s.len() && s[i] as int == seq_max(s),
        forall|i: int| 0 <= i < s.len() ==> seq_min(s) <= #[trigger] (s[i] as int) <= seq_max(s),
    decreases s.len(),
{
    if s.len() == 1 {
        assert(s[0] as int == seq_min(s));
        assert(s[0] as int == seq_max(s));
    } else {
        lemma_bounds_characterize(s.drop_last());
        assert forall|i: int| 0 <= i < s.len() implies seq_min(s) <= #[trigger] (s[i] as int)
            <= seq_max(s) by {
            if i < s.len() - 1 {
                assert(s.drop_last()[i] == s[i]);
            }
        }
        let j = choose|j: int| 0 <= j < s.len() - 1 && s.drop_last()[j] as int == seq_min(
            s.drop_last(),
        );
        let h = choose|h: int| 0 <= h < s.len() - 1 && s.drop_last()[h] as int == seq_max(
            s.drop_last(),
        );
        if (s.last() as int) < seq_min(s.drop_last()) {
            assert(s[s.len() - 1] as int == seq_min(s));
        } else {
            assert(s[j] as int == seq_min(s));
        }
        if (s.last() as int) > seq_max(s.drop_last()) {
            assert(s[s.len() - 1] as int == seq_max(s));
        } else {
            assert(s[h] as int == seq_max(s));
        }
    }
}

/// The value-axis bounds of a raw series: its minimum and maximum.
/// An empty series has no range, reported as `None` so a caller never
/// plots from empty data.
pub fn bounds(values: &Vec<i64>) -> (r: Option<(i64, i64)>)
    ensures
        match r {
            Some(b) => {
                &&& values@.len() >= 1
                &&& b.0 as int == seq_min(values@)
                &&& b.1 as int == seq_max(values@)
            },
            None => values@.len() == 0,
        },
{
    let n = values.len();
    if n == 0 {
        return None;
    }
    let mut lo: i64 = values[0];
    let mut hi: i64 = values[0];
    let mut i: usize = 1;
    proof {
        assert(values@.subrange(0, 1) =~= seq![values@[0]]);
        assert(lo as int == seq_min(values@.subrange(0, 1)));
        assert(hi as int == seq_max(values@.subrange(0, 1)));
    }
    while i < n
        invariant
            1 <= i <= n,
            n == values@.len(),
            lo as int == seq_min(values@.subrange(0, i as int)),
            hi as int == seq_max(values@.subrange(0, i as int)),
        decreases n - i,
    {
        let x = values[i];
        proof {
            let pre = values@.subrange(0, i as int);
            let post = values@.subrange(0, i as int + 1);
            assert(post.drop_last() =~= pre);
            assert(post.last() == values@[i as int]);
        }
        if x < lo {
            lo = x;
        }
        if x > hi {
            hi = x;
        }
        i = i + 1;
    }
    proof {
        assert(values@.subrange(0, n as int) =~= values@);
    }
    Some((lo, hi))
}

} // verus!
