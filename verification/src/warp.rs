//! The warp: a row of lanes, each holding one trit, and the measures over its lanes
//! that the operations are specified by.

use vstd::prelude::*;
use crate::trit::Trit;

verus! {

/// The integer sum of a row of trits, without clamping.
pub open spec fn seq_sum(s: Seq<Trit>) -> int
    decreases s.len(),
{
    if s.len() == 0 {
        0
    } else {
        seq_sum(s.drop_last()) + s.last().value()
    }
}

/// How many times a trit occurs in a row of trits.
pub open spec fn count_of(s: Seq<Trit>, t: Trit) -> nat
    decreases s.len(),
{
    if s.len() == 0 {
        0
    } else {
        count_of(s.drop_last(), t) + if s.last() == t { 1nat } else { 0nat }
    }
}

/// Extending a prefix by one lane adds that lane's value to the prefix sum.
pub proof fn lemma_seq_sum_step(s: Seq<Trit>, i: int)
    requires
        0 <= i < s.len(),
    ensures
        seq_sum(s.take(i + 1)) == seq_sum(s.take(i)) + s[i].value(),
{
    assert(s.take(i + 1).drop_last() =~= s.take(i));
}

/// Extending a prefix by one lane adds one to the count of that lane's trit.
pub proof fn lemma_count_step(s: Seq<Trit>, i: int, t: Trit)
    requires
        0 <= i < s.len(),
    ensures
        count_of(s.take(i + 1), t) == count_of(s.take(i), t) + if s[i] == t { 1nat } else { 0nat },
{
    assert(s.take(i + 1).drop_last() =~= s.take(i));
}

/// The sum of a row of trits never exceeds its length in magnitude.
pub proof fn lemma_seq_sum_bound(s: Seq<Trit>)
    ensures
        -(s.len() as int) <= seq_sum(s) <= s.len(),
    decreases s.len(),
{
    if s.len() > 0 {
        lemma_seq_sum_bound(s.drop_last());
    }
}

/// Configuration for a warp of ternary lanes.
#[derive(Debug, Clone)]
pub struct WarpConfig {
    /// Number of lanes in the warp (typically 32 for NVIDIA GPUs).
    pub warp_size: usize,
    /// Lane values — one trit per lane.
    pub lanes: Vec<Trit>,
}

impl WarpConfig {
    /// The warp holds exactly one trit per lane of its declared size, as
    /// `new` and `zeroed` make it and `set_lane` keeps it.
    pub open spec fn well_formed(&self) -> bool {
        self.lanes.len() == self.warp_size
    }

    /// Create a new WarpConfig with the given warp size and lane values.
    ///
    /// The lane count must match `warp_size`.
    pub fn new(warp_size: usize, lanes: Vec<Trit>) -> (w: Self)
        requires
            lanes.len() == warp_size,
        ensures
            w.warp_size == warp_size,
            w.lanes@ == lanes@,
            w.well_formed(),
    {
        WarpConfig { warp_size, lanes }
    }

    /// Create a warp with all lanes set to Zero.
    pub fn zeroed(warp_size: usize) -> (w: Self)
        ensures
            w.warp_size == warp_size,
            w.lanes@ == Seq::new(warp_size as nat, |i: int| Trit::Zero),
            w.well_formed(),
    {
        let mut lanes: Vec<Trit> = Vec::new();
        let mut i: usize = 0;
        while i < warp_size
            invariant
                i <= warp_size,
                lanes@ == Seq::new(i as nat, |k: int| Trit::Zero),
            decreases warp_size - i,
        {
            lanes.push(Trit::Zero);
            i += 1;
        }
        WarpConfig { warp_size, lanes }
    }

    /// Get the trit value at the given lane index.
    pub fn lane(&self, idx: usize) -> (t: Trit)
        requires
            idx < self.lanes.len(),
        ensures
            t == self.lanes@[idx as int],
    {
        self.lanes[idx]
    }

    /// Set the trit value at the given lane index.
    pub fn set_lane(&mut self, idx: usize, val: Trit)
        requires
            idx < old(self).lanes.len(),
        ensures
            final(self).lanes@ == old(self).lanes@.update(idx as int, val),
            final(self).warp_size == old(self).warp_size,
    {
        self.lanes.set(idx, val);
    }
}

} // verus!
