//! Collective predicates over the lanes of a warp.

use vstd::prelude::*;
use crate::trit::Trit;
use crate::warp::WarpConfig;

verus! {

/// Bit `i` of a 64-bit mask.
pub open spec fn lane_bit(mask: u64, i: int) -> bool {
    (mask >> (i as u64)) & 1u64 == 1u64
}

/// How many entries of a row of booleans are true.
pub open spec fn count_true(s: Seq<bool>) -> nat
    decreases s.len(),
{
    if s.len() == 0 {
        0
    } else {
        count_true(s.drop_last()) + if s.last() { 1nat } else { 0nat }
    }
}

/// Bit `i` of `mask` holds an answer of `pred` for lane `i`, for each of the first
/// 64 lanes of `s`, and every other bit of the mask is clear.
pub open spec fn ballot_answers<F: Fn(Trit) -> bool>(s: Seq<Trit>, pred: F, mask: u64) -> bool {
    forall|i: int|
        0 <= i < 64 ==> if i < s.len() {
            call_ensures(pred, (s[i],), #[trigger] lane_bit(mask, i))
        } else {
            !lane_bit(mask, i)
        }
}

/// `answers` holds an answer of `pred` for each lane of `s`.
pub open spec fn answers_of<F: Fn(Trit) -> bool>(s: Seq<Trit>, pred: F, answers: Seq<bool>) -> bool {
    &&& answers.len() == s.len()
    &&& forall|i: int| 0 <= i < s.len() ==> call_ensures(pred, (s[i],), #[trigger] answers[i])
}

/// How many of the bits `0..k` of a mask are set.
pub open spec fn bits_below(mask: u64, k: int) -> nat
    decreases k,
{
    if k <= 0 {
        0
    } else {
        bits_below(mask, k - 1) + if lane_bit(mask, k - 1) { 1nat } else { 0nat }
    }
}

/// Setting bit `i` of a mask sets that bit and leaves every other bit.
proof fn lemma_set_bit(m: u64, i: u64, j: u64)
    by (bit_vector)
    requires
        i < 64,
        j < 64,
    ensures
        ((m | (1u64 << i)) >> j) & 1u64 == if j == i { 1u64 } else { (m >> j) & 1u64 },
{
}

/// A bit of a mask is 0 or 1.
proof fn lemma_bit_is_zero_or_one(m: u64, j: u64)
    by (bit_vector)
    ensures
        (m >> j) & 1u64 == 0u64 || (m >> j) & 1u64 == 1u64,
{
}

/// The empty mask has no bit set.
proof fn lemma_no_bits(j: u64)
    by (bit_vector)
    requires
        j < 64,
    ensures
        (0u64 >> j) & 1u64 == 0u64,
{
}

/// Warp-level vote operations.
pub struct WarpVote;

impl WarpVote {
    /// Returns true if all lanes have the same trit value. The warp must have a lane.
    pub fn all_same(warp: &WarpConfig) -> (b: bool)
        requires
            warp.lanes.len() > 0,
        ensures
            b == forall|k: int| 0 <= k < warp.lanes.len() ==> #[trigger] warp.lanes@[k] == warp.lanes@[0],
    {
        let first = warp.lanes[0];
        let n = warp.lanes.len();
        let mut i: usize = 0;
        while i < n
            invariant
                n == warp.lanes.len(),
                n > 0,
                first == warp.lanes@[0],
                i <= n,
                forall|k: int| 0 <= k < i ==> warp.lanes@[k] == first,
            decreases n - i,
        {
            if warp.lanes[i] != first {
                return false;
            }
            i += 1;
        }
        true
    }

    /// Returns true if any lane has a nonzero trit value.
    pub fn any_nonzero(warp: &WarpConfig) -> (b: bool)
        ensures
            b == exists|k: int| 0 <= k < warp.lanes.len() && warp.lanes@[k] != Trit::Zero,
    {
        let n = warp.lanes.len();
        let mut i: usize = 0;
        while i < n
            invariant
                n == warp.lanes.len(),
                i <= n,
                forall|k: int| 0 <= k < i ==> warp.lanes@[k] == Trit::Zero,
            decreases n - i,
        {
            if warp.lanes[i].is_nonzero() {
                return true;
            }
            i += 1;
        }
        false
    }

    /// Returns true if all lanes have nonzero trit values.
    pub fn all_nonzero(warp: &WarpConfig) -> (b: bool)
        ensures
            b == forall|k: int| 0 <= k < warp.lanes.len() ==> warp.lanes@[k] != Trit::Zero,
    {
        let n = warp.lanes.len();
        let mut i: usize = 0;
        while i < n
            invariant
                n == warp.lanes.len(),
                i <= n,
                forall|k: int| 0 <= k < i ==> warp.lanes@[k] != Trit::Zero,
            decreases n - i,
        {
            if !warp.lanes[i].is_nonzero() {
                return false;
            }
            i += 1;
        }
        true
    }

    /// Returns a bitmask where bit i is set if lane i matches the predicate.
    ///
    /// Only the first 64 lanes are asked; bit `i` holds what `pred` answered for lane `i`,
    /// and the bits of absent lanes are clear.
    pub fn ballot(warp: &WarpConfig, pred: impl Fn(Trit) -> bool) -> (mask: u64)
        requires
            forall|t: Trit| call_requires(pred, (t,)),
        ensures
            ballot_answers(warp.lanes@, pred, mask),
            forall|i: int|
                0 <= i < 64 ==> if i < warp.lanes.len() {
                    call_ensures(
                        pred,
                        (warp.lanes@[i],),
                        (#[trigger] (mask >> (i as u64)) & 1u64) == 1u64,
                    )
                } else {
                    (mask >> (i as u64)) & 1u64 == 0u64
                },
    {
        let n = warp.lanes.len();
        let mut mask: u64 = 0;
        let mut i: usize = 0;
        assert forall|j: int| 0 <= j < 64 implies !#[trigger] lane_bit(0u64, j) by {
            lemma_no_bits(j as u64);
        }
        while i < n && i < 64
            invariant
                n == warp.lanes.len(),
                i <= 64,
                i <= n,
                forall|t: Trit| call_requires(pred, (t,)),
                forall|j: int|
                    0 <= j < 64 ==> if j < i {
                        call_ensures(pred, (warp.lanes@[j],), #[trigger] lane_bit(mask, j))
                    } else {
                        !lane_bit(mask, j)
                    },
            decreases n - i,
        {
            let hit = pred(warp.lanes[i]);
            let ghost before = mask;
            if hit {
                mask = mask | (1u64 << (i as u64));
            }
            assert forall|j: int| 0 <= j < 64 implies #[trigger] lane_bit(mask, j) == if j == i {
                hit
            } else {
                lane_bit(before, j)
            } by {
                if hit {
                    lemma_set_bit(before, i as u64, j as u64);
                }
            }
            i += 1;
        }
        assert forall|j: int| 0 <= j < 64 implies if j < n {
            call_ensures(pred, (warp.lanes@[j],), (#[trigger] (mask >> (j as u64)) & 1u64) == 1u64)
        } else {
            (mask >> (j as u64)) & 1u64 == 0u64
        } by {
            if j < n {
                assert(call_ensures(pred, (warp.lanes@[j],), lane_bit(mask, j)));
            } else {
                assert(!lane_bit(mask, j));
                lemma_bit_is_zero_or_one(mask, j as u64);
            }
        }
        mask
    }

    /// Count of lanes matching the predicate.
    ///
    /// The count is the number of lanes for which `pred` answered true.
    pub fn popcount(warp: &WarpConfig, pred: impl Fn(Trit) -> bool) -> (count: usize)
        requires
            forall|t: Trit| call_requires(pred, (t,)),
        ensures
            exists|answers: Seq<bool>|
                answers_of(warp.lanes@, pred, answers) && count == count_true(answers),
            exists|answers: Seq<bool>|
                {
                    &&& answers.len() == warp.lanes.len()
                    &&& forall|i: int|
                        0 <= i < warp.lanes.len() ==> call_ensures(
                            pred,
                            (warp.lanes@[i],),
                            #[trigger] answers[i],
                        )
                    &&& count == count_true(answers)
                },
    {
        let n = warp.lanes.len();
        let mut count: usize = 0;
        let ghost mut answers: Seq<bool> = Seq::empty();
        let mut i: usize = 0;
        while i < n
            invariant
                n == warp.lanes.len(),
                i <= n,
                forall|t: Trit| call_requires(pred, (t,)),
                answers.len() == i,
                forall|k: int|
                    0 <= k < i ==> call_ensures(pred, (warp.lanes@[k],), #[trigger] answers[k]),
                count == count_true(answers),
                count <= i,
            decreases n - i,
        {
            let hit = pred(warp.lanes[i]);
            proof {
                let prev = answers;
                answers = answers.push(hit);
                assert(answers.drop_last() =~= prev);
            }
            if hit {
                count += 1;
            }
            i += 1;
        }
        count
    }
}

} // verus!
