//! Exchanging trits between the lanes of a warp.

use vstd::prelude::*;
use vstd::arithmetic::div_mod::{
    lemma_add_mod_noop, lemma_sub_mod_noop, lemma_small_mod, lemma_mod_add_multiples_vanish,
    lemma_mod_sub_multiples_vanish,
};
use crate::trit::Trit;
use crate::warp::WarpConfig;

verus! {

/// The lane that lane `i` reads from when shuffling down by `delta` in a warp of size `n`.
pub open spec fn down_source(i: int, n: int, delta: int) -> int {
    (i + delta) % n
}

/// The lane that lane `i` reads from when shuffling up by `delta` in a warp of size `n`:
/// `delta` lanes below, wrapping around.
pub open spec fn up_source(i: int, n: int, delta: int) -> int {
    (i - delta) % n
}

/// The lane that lane `k` exchanges with in a butterfly over a warp of size `n`:
/// lanes `2j` and `2j + 1` swap where both lie below `n`.
pub open spec fn butterfly_partner(k: int, n: int) -> int {
    if k % 2 == 0 && k + 1 < n {
        k + 1
    } else if k % 2 == 1 && k < n {
        k - 1
    } else {
        k
    }
}

/// Every lane reads its source lane, which lies inside the row.
pub open spec fn down_in_bounds(len: int, n: int, delta: int) -> bool {
    len == 0 || (n > 0 && forall|i: int| 0 <= i < len ==> #[trigger] down_source(i, n, delta) < len)
}

/// Every lane reads its source lane, which lies inside the row.
pub open spec fn up_in_bounds(len: int, n: int, delta: int) -> bool {
    len == 0 || (n > 0 && forall|i: int| 0 <= i < len ==> #[trigger] up_source(i, n, delta) < len)
}

/// Every pair that a butterfly over a warp of size `n` swaps lies inside a row of `len` lanes.
pub open spec fn pairs_fit(n: int, len: int) -> bool {
    n <= len || (n == len + 1 && n % 2 == 1)
}

/// The row after shuffling down by `delta` in a warp of size `n`.
pub open spec fn shuffled_down(s: Seq<Trit>, n: int, delta: int) -> Seq<Trit> {
    Seq::new(s.len(), |i: int| s[down_source(i, n, delta)])
}

/// The row after shuffling up by `delta` in a warp of size `n`.
pub open spec fn shuffled_up(s: Seq<Trit>, n: int, delta: int) -> Seq<Trit> {
    Seq::new(s.len(), |i: int| s[up_source(i, n, delta)])
}

/// A row of `n` lanes that all hold lane `src` of `s`.
pub open spec fn broadcast_of(s: Seq<Trit>, src: int, n: nat) -> Seq<Trit> {
    Seq::new(n, |i: int| s[src])
}

/// The row in which position `j` holds lane `map[j] % n`.
pub open spec fn gathered(s: Seq<Trit>, map: Seq<usize>, n: int) -> Seq<Trit> {
    Seq::new(map.len(), |j: int| s[(map[j] as int) % n])
}

/// The row after exchanging the pairs of a butterfly over a warp of size `n`.
pub open spec fn butterflied(s: Seq<Trit>, n: int) -> Seq<Trit> {
    Seq::new(s.len(), |k: int| s[butterfly_partner(k, n)])
}

/// `(i + delta) % n`, computed from the two remainders without overflow.
fn wrap_add(i: usize, delta: usize, n: usize) -> (r: usize)
    requires
        n > 0,
    ensures
        r == (i as int + delta as int) % (n as int),
        r < n,
{
    let a = i % n;
    let b = delta % n;
    proof {
        lemma_add_mod_noop(i as int, delta as int, n as int);
    }
    if a >= n - b {
        proof {
            lemma_mod_sub_multiples_vanish(a + b, n as int);
            lemma_small_mod((a + b - n) as nat, n as nat);
        }
        a - (n - b)
    } else {
        proof {
            lemma_small_mod((a + b) as nat, n as nat);
        }
        a + b
    }
}

/// `(i - delta) % n`, computed from the two remainders without overflow.
fn wrap_sub(i: usize, delta: usize, n: usize) -> (r: usize)
    requires
        n > 0,
    ensures
        r == (i as int - delta as int) % (n as int),
        r < n,
{
    let a = i % n;
    let b = delta % n;
    proof {
        lemma_sub_mod_noop(i as int, delta as int, n as int);
    }
    if a >= b {
        proof {
            lemma_small_mod((a - b) as nat, n as nat);
        }
        a - b
    } else {
        proof {
            lemma_mod_add_multiples_vanish(a - b, n as int);
            lemma_small_mod((n + a - b) as nat, n as nat);
        }
        a + (n - b)
    }
}

/// Warp-level shuffle operations for exchanging trits between lanes.
pub struct WarpShuffle;

impl WarpShuffle {
    /// Broadcast: every lane receives the value from `src_lane`.
    pub fn broadcast(warp: &WarpConfig, src_lane: usize) -> (result: Vec<Trit>)
        requires
            src_lane < warp.lanes.len(),
        ensures
            result@ == broadcast_of(warp.lanes@, src_lane as int, warp.warp_size as nat),
            result@.len() == warp.warp_size,
            forall|k: int| 0 <= k < warp.warp_size ==> #[trigger] result@[k] == warp.lanes@[src_lane as int],
    {
        let val = warp.lane(src_lane);
        let n = warp.warp_size;
        let mut result: Vec<Trit> = Vec::new();
        let mut i: usize = 0;
        while i < n
            invariant
                i <= n,
                val == warp.lanes@[src_lane as int],
                result@ == Seq::new(i as nat, |k: int| val),
            decreases n - i,
        {
            result.push(val);
            i += 1;
        }
        result
    }

    /// Shuffle down: each lane receives the value from (lane + delta) % warp_size.
    pub fn shuffle_down(warp: &WarpConfig, delta: usize) -> (result: Vec<Trit>)
        requires
            down_in_bounds(warp.lanes.len() as int, warp.warp_size as int, delta as int),
        ensures
            result@ == shuffled_down(warp.lanes@, warp.warp_size as int, delta as int),
            result@.len() == warp.lanes.len(),
            forall|i: int|
                0 <= i < warp.lanes.len() ==> #[trigger] result@[i] == warp.lanes@[(i + delta as int)
                    % (warp.warp_size as int)],
    {
        let n = warp.warp_size;
        let len = warp.lanes.len();
        let mut result: Vec<Trit> = Vec::new();
        let mut i: usize = 0;
        while i < len
            invariant
                len == warp.lanes.len(),
                n == warp.warp_size,
                i <= len,
                down_in_bounds(len as int, n as int, delta as int),
                result@ =~= shuffled_down(warp.lanes@, n as int, delta as int).take(i as int),
            decreases len - i,
        {
            let src = wrap_add(i, delta, n);
            assert(down_source(i as int, n as int, delta as int) < len);
            result.push(warp.lanes[src]);
            i += 1;
        }
        result
    }

    /// Shuffle up: each lane receives the value from (lane + warp_size - delta) % warp_size.
    pub fn shuffle_up(warp: &WarpConfig, delta: usize) -> (result: Vec<Trit>)
        requires
            up_in_bounds(warp.lanes.len() as int, warp.warp_size as int, delta as int),
        ensures
            result@ == shuffled_up(warp.lanes@, warp.warp_size as int, delta as int),
            result@.len() == warp.lanes.len(),
            forall|i: int|
                0 <= i < warp.lanes.len() ==> #[trigger] result@[i] == warp.lanes@[(i - delta as int)
                    % (warp.warp_size as int)],
    {
        let n = warp.warp_size;
        let len = warp.lanes.len();
        let mut result: Vec<Trit> = Vec::new();
        let mut i: usize = 0;
        while i < len
            invariant
                len == warp.lanes.len(),
                n == warp.warp_size,
                i <= len,
                up_in_bounds(len as int, n as int, delta as int),
                result@ =~= shuffled_up(warp.lanes@, n as int, delta as int).take(i as int),
            decreases len - i,
        {
            let src = wrap_sub(i, delta, n);
            assert(up_source(i as int, n as int, delta as int) < len);
            result.push(warp.lanes[src]);
            i += 1;
        }
        result
    }

    /// Shuffle by index map: lane i receives the value from map[i].
    /// `map` must have the same length as the warp.
    pub fn shuffle_idx(warp: &WarpConfig, map: &[usize]) -> (result: Vec<Trit>)
        requires
            map@.len() == warp.warp_size,
            forall|j: int|
                0 <= j < map@.len() ==> (#[trigger] map@[j] as int) % (warp.warp_size as int)
                    < warp.lanes.len(),
        ensures
            result@ == gathered(warp.lanes@, map@, warp.warp_size as int),
            result@.len() == map@.len(),
            forall|j: int|
                0 <= j < map@.len() ==> #[trigger] result@[j] == warp.lanes@[(map@[j] as int) % (
                warp.warp_size as int)],
    {
        let n = warp.warp_size;
        let mut result: Vec<Trit> = Vec::new();
        let mut j: usize = 0;
        while j < map.len()
            invariant
                n == warp.warp_size,
                map@.len() == n,
                j <= n,
                forall|k: int| 0 <= k < map@.len() ==> (#[trigger] map@[k] as int) % (n as int) < warp.lanes.len(),
                result@ =~= gathered(warp.lanes@, map@, n as int).take(j as int),
            decreases n - j,
        {
            let src = map[j] % n;
            result.push(warp.lanes[src]);
            j += 1;
        }
        result
    }

    /// Butterfly shuffle (exchange pairs): lane 2k <-> lane 2k+1.
    pub fn butterfly(warp: &WarpConfig) -> (result: Vec<Trit>)
        requires
            pairs_fit(warp.warp_size as int, warp.lanes.len() as int),
        ensures
            result@ == butterflied(warp.lanes@, warp.warp_size as int),
            result@.len() == warp.lanes.len(),
            forall|k: int|
                0 <= k && k % 2 == 0 && k + 1 < warp.warp_size ==> #[trigger] result@[k]
                    == warp.lanes@[k + 1] && result@[k + 1] == warp.lanes@[k],
            forall|k: int|
                0 <= k < warp.lanes.len() && (k >= warp.warp_size || (k + 1 == warp.warp_size && k
                    % 2 == 0)) ==> #[trigger] result@[k] == warp.lanes@[k],
    {
        let n = warp.warp_size;
        let len = warp.lanes.len();
        let mut result: Vec<Trit> = Vec::new();
        let mut k: usize = 0;
        while k < len
            invariant
                len == warp.lanes.len(),
                k <= len,
                result@ =~= warp.lanes@.take(k as int),
            decreases len - k,
        {
            result.push(warp.lanes[k]);
            k += 1;
        }
        let mut i: usize = 0;
        while i < n && n - i > 1
            invariant
                n == warp.warp_size,
                len == warp.lanes.len(),
                pairs_fit(n as int, len as int),
                i <= n,
                i % 2 == 0,
                result@.len() == len,
                forall|k: int|
                    0 <= k < len ==> #[trigger] result@[k] == if k < i {
                        warp.lanes@[butterfly_partner(k, n as int)]
                    } else {
                        warp.lanes@[k]
                    },
            decreases n - i,
        {
            let a = result[i];
            let b = result[i + 1];
            result.set(i, b);
            result.set(i + 1, a);
            i += 2;
        }
        assert(result@ =~= butterflied(warp.lanes@, n as int));
        result
    }

    /// Reverse shuffle: lane i receives value from lane (warp_size - 1 - i).
    pub fn reverse(warp: &WarpConfig) -> (result: Vec<Trit>)
        ensures
            result@ == warp.lanes@.reverse(),
            result@.len() == warp.lanes.len(),
            forall|k: int|
                0 <= k < warp.lanes.len() ==> #[trigger] result@[k] == warp.lanes@[warp.lanes.len() - 1
                    - k],
    {
        let len = warp.lanes.len();
        let mut result: Vec<Trit> = Vec::new();
        let mut i: usize = 0;
        while i < len
            invariant
                len == warp.lanes.len(),
                i <= len,
                result@ =~= Seq::new(i as nat, |k: int| warp.lanes@[len - 1 - k]),
            decreases len - i,
        {
            result.push(warp.lanes[len - 1 - i]);
            i += 1;
        }
        result
    }
}

} // verus!
