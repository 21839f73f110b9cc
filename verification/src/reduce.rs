//! Reductions of all lanes of a warp to a single value.

use vstd::prelude::*;
use crate::trit::Trit;
use crate::warp::{WarpConfig, seq_sum, count_of, lemma_seq_sum_step, lemma_count_step, lemma_seq_sum_bound};

verus! {

/// The most common trit of a row; among equally common trits Zero wins, then
/// Positive, then Negative.
pub open spec fn majority_of(s: Seq<Trit>) -> Trit {
    let neg = count_of(s, Trit::Negative);
    let zero = count_of(s, Trit::Zero);
    let pos = count_of(s, Trit::Positive);
    if zero >= neg && zero >= pos {
        Trit::Zero
    } else if pos >= neg {
        Trit::Positive
    } else {
        Trit::Negative
    }
}

/// `t` is the largest trit of a nonempty row: it occurs there and no lane exceeds it.
pub open spec fn is_max_of(s: Seq<Trit>, t: Trit) -> bool {
    &&& exists|k: int| 0 <= k < s.len() && s[k] == t
    &&& forall|k: int| 0 <= k < s.len() ==> s[k].value() <= t.value()
}

/// `t` is the smallest trit of a nonempty row: it occurs there and no lane is below it.
pub open spec fn is_min_of(s: Seq<Trit>, t: Trit) -> bool {
    &&& exists|k: int| 0 <= k < s.len() && s[k] == t
    &&& forall|k: int| 0 <= k < s.len() ==> t.value() <= s[k].value()
}

/// Clamps an integer to `[-1, 1]`.
pub(crate) fn clamp_unit(v: i64) -> (c: i8)
    ensures
        -1 <= c <= 1,
        Trit::from_value(c as int) == Trit::from_value(v as int),
        -1 <= v <= 1 ==> c == v,
{
    if v < 0 {
        -1
    } else if v > 0 {
        1
    } else {
        0
    }
}

/// Warp-level reduction operations across all lanes.
pub struct WarpReduce;

impl WarpReduce {
    /// Sum all trits in the warp, returning the clamped ternary result.
    pub fn sum(warp: &WarpConfig) -> (t: Trit)
        requires
            warp.lanes.len() <= i64::MAX,
        ensures
            t == Trit::from_value(seq_sum(warp.lanes@)),
    {
        let total = Self::sum_raw(warp);
        Trit::from_int(clamp_unit(total))
    }

    /// Compute the raw (unclamped) sum as an integer.
    pub fn sum_raw(warp: &WarpConfig) -> (total: i64)
        requires
            warp.lanes.len() <= i64::MAX,
        ensures
            total == seq_sum(warp.lanes@),
    {
        let n = warp.lanes.len();
        let mut total: i64 = 0;
        let mut i: usize = 0;
        while i < n
            invariant
                n == warp.lanes.len(),
                n <= i64::MAX,
                i <= n,
                total == seq_sum(warp.lanes@.take(i as int)),
            decreases n - i,
        {
            proof {
                lemma_seq_sum_step(warp.lanes@, i as int);
                lemma_seq_sum_bound(warp.lanes@.take(i + 1));
            }
            total = total + warp.lanes[i].to_int() as i64;
            i += 1;
        }
        assert(warp.lanes@.take(n as int) =~= warp.lanes@);
        total
    }

    /// Majority vote: returns the most common trit value across lanes.
    /// Ties are broken in favor of Zero, then Positive.
    pub fn majority(warp: &WarpConfig) -> (t: Trit)
        ensures
            t == majority_of(warp.lanes@),
            forall|u: Trit| count_of(warp.lanes@, u) <= count_of(warp.lanes@, t),
            count_of(warp.lanes@, Trit::Zero) == count_of(warp.lanes@, t) ==> t == Trit::Zero,
            t == Trit::Negative ==> count_of(warp.lanes@, Trit::Positive) < count_of(
                warp.lanes@,
                Trit::Negative,
            ),
    {
        let n = warp.lanes.len();
        let mut neg: usize = 0;
        let mut zero: usize = 0;
        let mut pos: usize = 0;
        let mut i: usize = 0;
        while i < n
            invariant
                n == warp.lanes.len(),
                i <= n,
                neg == count_of(warp.lanes@.take(i as int), Trit::Negative),
                zero == count_of(warp.lanes@.take(i as int), Trit::Zero),
                pos == count_of(warp.lanes@.take(i as int), Trit::Positive),
                neg + zero + pos == i,
            decreases n - i,
        {
            proof {
                lemma_count_step(warp.lanes@, i as int, Trit::Negative);
                lemma_count_step(warp.lanes@, i as int, Trit::Zero);
                lemma_count_step(warp.lanes@, i as int, Trit::Positive);
            }
            match warp.lanes[i] {
                Trit::Negative => neg += 1,
                Trit::Zero => zero += 1,
                Trit::Positive => pos += 1,
            }
            i += 1;
        }
        assert(warp.lanes@.take(n as int) =~= warp.lanes@);
        if zero >= neg && zero >= pos {
            Trit::Zero
        } else if pos >= neg {
            Trit::Positive
        } else {
            Trit::Negative
        }
    }

    /// Maximum trit value across all lanes (Positive > Zero > Negative).
    /// An empty warp gives Zero.
    pub fn max(warp: &WarpConfig) -> (t: Trit)
        ensures
            warp.lanes.len() == 0 ==> t == Trit::Zero,
            warp.lanes.len() > 0 ==> is_max_of(warp.lanes@, t),
            warp.lanes.len() > 0 ==> exists|k: int| 0 <= k < warp.lanes.len() && warp.lanes@[k] == t,
            forall|k: int| 0 <= k < warp.lanes.len() ==> #[trigger] warp.lanes@[k].value() <= t.value(),
    {
        let n = warp.lanes.len();
        if n == 0 {
            return Trit::Zero;
        }
        let mut best = warp.lanes[0];
        let mut i: usize = 1;
        while i < n
            invariant
                n == warp.lanes.len(),
                1 <= i <= n,
                exists|k: int| 0 <= k < i && warp.lanes@[k] == best,
                forall|k: int| 0 <= k < i ==> warp.lanes@[k].value() <= best.value(),
            decreases n - i,
        {
            let t = warp.lanes[i];
            if t.to_int() >= best.to_int() {
                best = t;
            }
            i += 1;
        }
        best
    }

    /// Minimum trit value across all lanes. An empty warp gives Zero.
    pub fn min(warp: &WarpConfig) -> (t: Trit)
        ensures
            warp.lanes.len() == 0 ==> t == Trit::Zero,
            warp.lanes.len() > 0 ==> is_min_of(warp.lanes@, t),
            warp.lanes.len() > 0 ==> exists|k: int| 0 <= k < warp.lanes.len() && warp.lanes@[k] == t,
            forall|k: int| 0 <= k < warp.lanes.len() ==> t.value() <= #[trigger] warp.lanes@[k].value(),
    {
        let n = warp.lanes.len();
        if n == 0 {
            return Trit::Zero;
        }
        let mut best = warp.lanes[0];
        let mut i: usize = 1;
        while i < n
            invariant
                n == warp.lanes.len(),
                1 <= i <= n,
                exists|k: int| 0 <= k < i && warp.lanes@[k] == best,
                forall|k: int| 0 <= k < i ==> best.value() <= warp.lanes@[k].value(),
            decreases n - i,
        {
            let t = warp.lanes[i];
            if t.to_int() < best.to_int() {
                best = t;
            }
            i += 1;
        }
        best
    }

    /// Logical AND across lanes: Positive only if all lanes are Positive.
    pub fn all_positive(warp: &WarpConfig) -> (b: bool)
        ensures
            b == forall|k: int| 0 <= k < warp.lanes.len() ==> warp.lanes@[k] == Trit::Positive,
    {
        let n = warp.lanes.len();
        let mut i: usize = 0;
        while i < n
            invariant
                n == warp.lanes.len(),
                i <= n,
                forall|k: int| 0 <= k < i ==> warp.lanes@[k] == Trit::Positive,
            decreases n - i,
        {
            if warp.lanes[i] != Trit::Positive {
                return false;
            }
            i += 1;
        }
        true
    }

    /// Logical OR across lanes: Positive if any lane is Positive.
    pub fn any_positive(warp: &WarpConfig) -> (b: bool)
        ensures
            b == exists|k: int| 0 <= k < warp.lanes.len() && warp.lanes@[k] == Trit::Positive,
    {
        let n = warp.lanes.len();
        let mut i: usize = 0;
        while i < n
            invariant
                n == warp.lanes.len(),
                i <= n,
                forall|k: int| 0 <= k < i ==> warp.lanes@[k] != Trit::Positive,
            decreases n - i,
        {
            if warp.lanes[i] == Trit::Positive {
                return true;
            }
            i += 1;
        }
        false
    }
}

} // verus!
