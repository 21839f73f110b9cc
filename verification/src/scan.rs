//! Prefix scans across the lanes of a warp.

use vstd::prelude::*;
use crate::trit::Trit;
use crate::warp::{WarpConfig, seq_sum, lemma_seq_sum_step, lemma_seq_sum_bound};
use crate::reduce::clamp_unit;

verus! {

/// Lane `i` holds the raw sum of lanes `0..=i`.
pub open spec fn inclusive_prefix_sums(s: Seq<Trit>) -> Seq<int> {
    Seq::new(s.len(), |i: int| seq_sum(s.take(i + 1)))
}

/// Lane `i` holds the clamped sum of lanes `0..=i`.
pub open spec fn inclusive_clamped(s: Seq<Trit>) -> Seq<Trit> {
    Seq::new(s.len(), |i: int| Trit::from_value(seq_sum(s.take(i + 1))))
}

/// Lane `i` holds the clamped sum of lanes `0..i`.
pub open spec fn exclusive_clamped(s: Seq<Trit>) -> Seq<Trit> {
    Seq::new(s.len(), |i: int| Trit::from_value(seq_sum(s.take(i))))
}

/// Warp-level prefix scan (inclusive) across all lanes.
pub struct WarpScan;

impl WarpScan {
    /// Inclusive prefix sum scan. Each lane contains the clamped ternary
    /// sum of all lanes from 0..=idx.
    pub fn inclusive_sum(warp: &WarpConfig) -> (result: Vec<Trit>)
        requires
            warp.lanes.len() <= i64::MAX,
        ensures
            result@ == inclusive_clamped(warp.lanes@),
            result@.len() == warp.lanes.len(),
            forall|i: int|
                0 <= i < warp.lanes.len() ==> #[trigger] result@[i] == Trit::from_value(
                    seq_sum(warp.lanes@.take(i + 1)),
                ),
    {
        let n = warp.lanes.len();
        let mut result: Vec<Trit> = Vec::new();
        let mut acc: i64 = 0;
        let mut i: usize = 0;
        while i < n
            invariant
                n == warp.lanes.len(),
                n <= i64::MAX,
                i <= n,
                acc == seq_sum(warp.lanes@.take(i as int)),
                result@ =~= inclusive_clamped(warp.lanes@).take(i as int),
            decreases n - i,
        {
            proof {
                lemma_seq_sum_step(warp.lanes@, i as int);
                lemma_seq_sum_bound(warp.lanes@.take(i + 1));
            }
            acc = acc + warp.lanes[i].to_int() as i64;
            result.push(Trit::from_int(clamp_unit(acc)));
            i += 1;
        }
        result
    }

    /// Inclusive prefix sum with raw (unclamped) integer values.
    pub fn inclusive_sum_raw(warp: &WarpConfig) -> (result: Vec<i64>)
        requires
            warp.lanes.len() <= i64::MAX,
        ensures
            result@.map_values(|v: i64| v as int) == inclusive_prefix_sums(warp.lanes@),
            result@.len() == warp.lanes.len(),
            forall|i: int|
                0 <= i < warp.lanes.len() ==> #[trigger] result@[i] == seq_sum(
                    warp.lanes@.take(i + 1),
                ),
            warp.lanes.len() > 0 ==> result@[0] == warp.lanes@[0].value(),
            forall|i: int|
                0 <= i < warp.lanes.len() - 1 ==> #[trigger] result@[i + 1] == result@[i]
                    + warp.lanes@[i + 1].value(),
    {
        let n = warp.lanes.len();
        let mut result: Vec<i64> = Vec::new();
        let mut acc: i64 = 0;
        let mut i: usize = 0;
        while i < n
            invariant
                n == warp.lanes.len(),
                n <= i64::MAX,
                i <= n,
                acc == seq_sum(warp.lanes@.take(i as int)),
                result@.map_values(|v: i64| v as int) =~= inclusive_prefix_sums(warp.lanes@).take(i as int),
            decreases n - i,
        {
            proof {
                lemma_seq_sum_step(warp.lanes@, i as int);
                lemma_seq_sum_bound(warp.lanes@.take(i + 1));
            }
            let ghost before = result@;
            acc = acc + warp.lanes[i].to_int() as i64;
            result.push(acc);
            assert(result@.map_values(|v: i64| v as int) =~= before.map_values(|v: i64| v as int).push(
                acc as int,
            ));
            i += 1;
        }
        proof {
            assert(result@.map_values(|v: i64| v as int).len() == n);
            assert forall|k: int| 0 <= k < n implies #[trigger] result@[k] == seq_sum(
                warp.lanes@.take(k + 1),
            ) by {
                assert(result@.map_values(|v: i64| v as int)[k] == inclusive_prefix_sums(warp.lanes@)[k]);
            }
            if n > 0 {
                assert(warp.lanes@.take(1) =~= seq![warp.lanes@[0]]);
                assert(warp.lanes@.take(1).drop_last() =~= Seq::<Trit>::empty());
                assert(seq_sum(Seq::<Trit>::empty()) == 0);
                assert(warp.lanes@.take(1).last() == warp.lanes@[0]);
                assert(seq_sum(warp.lanes@.take(1)) == warp.lanes@[0].value());
                assert(result@[0] == seq_sum(warp.lanes@.take(1)));
            }
            assert forall|k: int| 0 <= k < n - 1 implies #[trigger] result@[k + 1] == result@[k]
                + warp.lanes@[k + 1].value() by {
                lemma_seq_sum_step(warp.lanes@, k + 1);
                assert(result@[k + 1] == seq_sum(warp.lanes@.take(k + 2)));
                assert(result@[k] == seq_sum(warp.lanes@.take(k + 1)));
            }
        }
        result
    }

    /// Exclusive prefix sum scan. Lane i contains the sum of lanes 0..i.
    pub fn exclusive_sum(warp: &WarpConfig) -> (result: Vec<Trit>)
        requires
            warp.lanes.len() <= i64::MAX,
        ensures
            result@ == exclusive_clamped(warp.lanes@),
            result@.len() == warp.lanes.len(),
            forall|i: int|
                0 <= i < warp.lanes.len() ==> #[trigger] result@[i] == Trit::from_value(
                    seq_sum(warp.lanes@.take(i)),
                ),
    {
        let n = warp.lanes.len();
        let mut result: Vec<Trit> = Vec::new();
        let mut acc: i64 = 0;
        let mut i: usize = 0;
        while i < n
            invariant
                n == warp.lanes.len(),
                n <= i64::MAX,
                i <= n,
                acc == seq_sum(warp.lanes@.take(i as int)),
                result@ =~= exclusive_clamped(warp.lanes@).take(i as int),
            decreases n - i,
        {
            proof {
                lemma_seq_sum_step(warp.lanes@, i as int);
                lemma_seq_sum_bound(warp.lanes@.take(i + 1));
            }
            result.push(Trit::from_int(clamp_unit(acc)));
            acc = acc + warp.lanes[i].to_int() as i64;
            i += 1;
        }
        result
    }

    /// Inclusive prefix scan using a custom binary associative operator.
    ///
    /// Lane 0 keeps its value; lane `i` receives what `op` returned on the result
    /// of lane `i - 1` and the value of lane `i`. The warp must have a lane.
    pub fn inclusive_scan<F>(warp: &WarpConfig, op: F) -> (result: Vec<Trit>)
        where
            F: Fn(Trit, Trit) -> Trit,
        requires
            warp.lanes.len() > 0,
            forall|a: Trit, b: Trit| call_requires(op, (a, b)),
        ensures
            result@.len() == warp.lanes.len(),
            result@[0] == warp.lanes@[0],
            forall|i: int|
                1 <= i < result@.len() ==> call_ensures(
                    op,
                    (result@[i - 1], warp.lanes@[i]),
                    #[trigger] result@[i],
                ),
    {
        let n = warp.lanes.len();
        let mut result: Vec<Trit> = Vec::new();
        let mut acc = warp.lanes[0];
        result.push(acc);
        let mut i: usize = 1;
        while i < n
            invariant
                n == warp.lanes.len(),
                1 <= i <= n,
                result@.len() == i,
                result@[0] == warp.lanes@[0],
                acc == result@[i - 1],
                forall|a: Trit, b: Trit| call_requires(op, (a, b)),
                forall|k: int|
                    1 <= k < i ==> call_ensures(
                        op,
                        (result@[k - 1], warp.lanes@[k]),
                        #[trigger] result@[k],
                    ),
            decreases n - i,
        {
            acc = op(acc, warp.lanes[i]);
            result.push(acc);
            i += 1;
        }
        result
    }
}

} // verus!
