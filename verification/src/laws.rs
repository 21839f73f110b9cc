//! Properties that hold across the operations of the library.

use vstd::prelude::*;
use vstd::arithmetic::div_mod::{
    lemma_add_mod_noop, lemma_add_mod_noop_right, lemma_sub_mod_noop, lemma_sub_mod_noop_right,
    lemma_small_mod, lemma_mod_bound, lemma_mod_add_multiples_vanish, lemma_mod_sub_multiples_vanish,
};
use crate::trit::Trit;
use crate::warp::{seq_sum, count_of, lemma_seq_sum_step};
use crate::reduce::{majority_of, is_max_of, is_min_of};
use crate::scan::{inclusive_prefix_sums, inclusive_clamped, exclusive_clamped};
use crate::vote::{ballot_answers, answers_of, bits_below, count_true, lane_bit};
use crate::shuffle::{
    down_source, up_source, butterfly_partner, down_in_bounds, up_in_bounds, pairs_fit,
    shuffled_down, shuffled_up, gathered, butterflied, broadcast_of,
};

verus! {

// --- Trit arithmetic ---

/// Converting a trit to its integer and back gives the same trit.
pub proof fn law_int_round_trip(t: Trit)
    ensures
        Trit::from_value(t.value()) == t,
{
}

/// Negation flips the sign of a trit's value and undoes itself.
pub proof fn law_neg_involutive(t: Trit)
    ensures
        t.negated().value() == -t.value(),
        t.negated().negated() == t,
{
}

/// Clamped addition is commutative, has Zero as identity, and a trit plus its
/// negation is Zero.
pub proof fn law_add_commutative_identity_inverse(a: Trit, b: Trit)
    ensures
        a.plus(b) == b.plus(a),
        a.plus(Trit::Zero) == a,
        a.plus(a.negated()) == Trit::Zero,
{
}

/// Clamped addition gives the sum of the values, clamped to `[-1, 1]`.
pub proof fn law_add_clamps(a: Trit, b: Trit)
    ensures
        a.plus(b).value() == if a.value() + b.value() > 1 {
            1
        } else if a.value() + b.value() < -1 {
            -1
        } else {
            a.value() + b.value()
        },
{
}

/// Multiplication of trits is exact: the product's value is the product of the values.
pub proof fn law_mul_exact(a: Trit, b: Trit)
    ensures
        a.times(b).value() == a.value() * b.value(),
{
}

/// Multiplication of trits is commutative and associative, with Positive as identity,
/// Zero absorbing, and Negative acting as negation.
pub proof fn law_mul_monoid(a: Trit, b: Trit, c: Trit)
    ensures
        a.times(b) == b.times(a),
        a.times(b).times(c) == a.times(b.times(c)),
        a.times(Trit::Positive) == a,
        a.times(Trit::Zero) == Trit::Zero,
        a.times(Trit::Negative) == a.negated(),
{
    match a {
        Trit::Negative => match b {
            Trit::Negative => {},
            Trit::Zero => {},
            Trit::Positive => {},
        },
        Trit::Zero => {},
        Trit::Positive => match b {
            Trit::Negative => {},
            Trit::Zero => {},
            Trit::Positive => {},
        },
    }
}

/// The integer of each trit, and the trit nearest to each integer: its sign.
pub proof fn law_trit_values(v: int)
    ensures
        Trit::Negative.value() == -1,
        Trit::Zero.value() == 0,
        Trit::Positive.value() == 1,
        (Trit::from_value(v) == Trit::Negative) == (v < 0),
        (Trit::from_value(v) == Trit::Zero) == (v == 0),
        (Trit::from_value(v) == Trit::Positive) == (v > 0),
{
}

// --- Reductions ---

/// The raw sum of no lanes is 0, and appending a lane adds its value.
pub proof fn law_seq_sum_structure(s: Seq<Trit>, t: Trit)
    ensures
        seq_sum(Seq::<Trit>::empty()) == 0,
        seq_sum(s.push(t)) == seq_sum(s) + t.value(),
{
    assert(s.push(t).drop_last() =~= s);
}

/// No lanes hold no trit, and appending a lane adds one to the count of its trit only.
pub proof fn law_count_structure(s: Seq<Trit>, x: Trit, t: Trit)
    ensures
        count_of(Seq::<Trit>::empty(), t) == 0,
        count_of(s.push(x), t) == count_of(s, t) + if x == t { 1nat } else { 0nat },
{
    assert(s.push(x).drop_last() =~= s);
}

/// Every lane holds exactly one of the three trits.
pub proof fn law_counts_partition(s: Seq<Trit>)
    ensures
        count_of(s, Trit::Negative) + count_of(s, Trit::Zero) + count_of(s, Trit::Positive)
            == s.len(),
    decreases s.len(),
{
    if s.len() > 0 {
        law_counts_partition(s.drop_last());
    }
}

/// The raw sum of a warp is its count of Positive lanes less its count of Negative lanes.
pub proof fn law_sum_is_count_difference(s: Seq<Trit>)
    ensures
        seq_sum(s) == count_of(s, Trit::Positive) - count_of(s, Trit::Negative),
    decreases s.len(),
{
    if s.len() > 0 {
        law_sum_is_count_difference(s.drop_last());
    }
}

/// The clamped sum of a warp says whether Positive lanes outnumber Negative lanes,
/// Negative lanes outnumber Positive lanes, or the two balance.
pub proof fn law_sum_sign(s: Seq<Trit>)
    ensures
        (Trit::from_value(seq_sum(s)) == Trit::Positive) == (count_of(s, Trit::Positive) > count_of(
            s,
            Trit::Negative,
        )),
        (Trit::from_value(seq_sum(s)) == Trit::Negative) == (count_of(s, Trit::Negative) > count_of(
            s,
            Trit::Positive,
        )),
        (Trit::from_value(seq_sum(s)) == Trit::Zero) == (count_of(s, Trit::Positive) == count_of(
            s,
            Trit::Negative,
        )),
{
    law_sum_is_count_difference(s);
}

/// A trit that fills every lane of a row occurs once per lane, and no other trit occurs.
proof fn lemma_uniform_counts(s: Seq<Trit>, t: Trit, u: Trit)
    requires
        forall|k: int| 0 <= k < s.len() ==> s[k] == t,
    ensures
        count_of(s, t) == s.len(),
        u != t ==> count_of(s, u) == 0,
    decreases s.len(),
{
    if s.len() > 0 {
        lemma_uniform_counts(s.drop_last(), t, u);
    }
}

/// In a nonempty warp whose lanes all hold one trit, that trit is the majority,
/// the maximum and the minimum.
pub proof fn law_unanimous_warp(s: Seq<Trit>, t: Trit)
    requires
        s.len() > 0,
        forall|k: int| 0 <= k < s.len() ==> s[k] == t,
    ensures
        majority_of(s) == t,
        is_max_of(s, t),
        is_min_of(s, t),
{
    lemma_uniform_counts(s, t, Trit::Negative);
    lemma_uniform_counts(s, t, Trit::Zero);
    lemma_uniform_counts(s, t, Trit::Positive);
    assert(s[0] == t);
}

/// The majority is a most common trit; Zero wins every tie it is in, and Positive wins a
/// tie with Negative.
pub proof fn law_majority_ties(s: Seq<Trit>, u: Trit)
    ensures
        count_of(s, u) <= count_of(s, majority_of(s)),
        count_of(s, Trit::Zero) == count_of(s, majority_of(s)) ==> majority_of(s) == Trit::Zero,
        majority_of(s) == Trit::Negative ==> count_of(s, Trit::Positive) < count_of(s, Trit::Negative),
{
}

/// The maximum of a nonempty warp occurs in it and bounds every lane from above; the
/// minimum occurs in it and bounds every lane from below.
pub proof fn law_extremes(s: Seq<Trit>, hi: Trit, lo: Trit, k: int)
    requires
        is_max_of(s, hi),
        is_min_of(s, lo),
        0 <= k < s.len(),
    ensures
        lo.value() <= s[k].value() <= hi.value(),
        exists|j: int| 0 <= j < s.len() && s[j] == hi,
        exists|j: int| 0 <= j < s.len() && s[j] == lo,
{
}

/// The minimum of a warp never exceeds its maximum.
pub proof fn law_min_le_max(s: Seq<Trit>, lo: Trit, hi: Trit)
    requires
        is_min_of(s, lo),
        is_max_of(s, hi),
    ensures
        lo.value() <= hi.value(),
{
    let k = choose|k: int| 0 <= k < s.len() && s[k] == lo;
    assert(s[k].value() <= hi.value());
}

/// In a nonempty warp, a property of every lane is a property of some lane: all
/// Positive implies some Positive, and all nonzero implies some nonzero.
pub proof fn law_all_implies_any(s: Seq<Trit>)
    requires
        s.len() > 0,
    ensures
        (forall|k: int| 0 <= k < s.len() ==> s[k] == Trit::Positive) ==> exists|k: int|
            0 <= k < s.len() && s[k] == Trit::Positive,
        (forall|k: int| 0 <= k < s.len() ==> s[k] != Trit::Zero) ==> exists|k: int|
            0 <= k < s.len() && s[k] != Trit::Zero,
{
    if forall|k: int| 0 <= k < s.len() ==> s[k] == Trit::Positive {
        assert(s[0] == Trit::Positive);
    }
    if forall|k: int| 0 <= k < s.len() ==> s[k] != Trit::Zero {
        assert(s[0] != Trit::Zero);
    }
}

/// A zeroed warp sums to zero and has Zero as its majority.
pub proof fn law_zeroed_warp(n: nat)
    ensures
        seq_sum(Seq::new(n, |i: int| Trit::Zero)) == 0,
        majority_of(Seq::new(n, |i: int| Trit::Zero)) == Trit::Zero,
{
    let s = Seq::new(n, |i: int| Trit::Zero);
    lemma_uniform_counts(s, Trit::Zero, Trit::Negative);
    lemma_uniform_counts(s, Trit::Zero, Trit::Positive);
    law_sum_is_count_difference(s);
}

/// Writing a lane and then reading it gives the value written; other lanes are unchanged.
pub proof fn law_lane_reads_set_value(s: Seq<Trit>, idx: int, other: int, val: Trit)
    requires
        0 <= idx < s.len(),
        0 <= other < s.len(),
    ensures
        s.update(idx, val)[idx] == val,
        other != idx ==> s.update(idx, val)[other] == s[other],
        s.update(idx, val).len() == s.len(),
{
}

// --- Scans ---

/// The raw inclusive scan starts at the value of lane 0, and each later lane adds the
/// value of its own lane to the lane before it.
pub proof fn law_inclusive_prefix_recurrence(s: Seq<Trit>)
    ensures
        inclusive_prefix_sums(s).len() == s.len(),
        s.len() > 0 ==> inclusive_prefix_sums(s)[0] == s[0].value(),
        forall|i: int|
            0 <= i < s.len() - 1 ==> #[trigger] inclusive_prefix_sums(s)[i + 1] == inclusive_prefix_sums(
                s,
            )[i] + s[i + 1].value(),
{
    if s.len() > 0 {
        lemma_seq_sum_step(s, 0);
        assert(s.take(0) =~= Seq::<Trit>::empty());
    }
    assert forall|i: int| 0 <= i < s.len() - 1 implies #[trigger] inclusive_prefix_sums(s)[i + 1]
        == inclusive_prefix_sums(s)[i] + s[i + 1].value() by {
        lemma_seq_sum_step(s, i + 1);
    }
}

/// Given any running total `p` of the lanes (lane 0's value, then each lane's value added
/// to the total before it), the raw inclusive scan is `p`, the clamped inclusive scan holds
/// the sign of `p` in each lane, and the exclusive scan holds Zero and then the sign of `p`
/// one lane later.
pub proof fn law_scans_follow_running_total(s: Seq<Trit>, p: Seq<int>)
    requires
        p.len() == s.len(),
        s.len() > 0 ==> p[0] == s[0].value(),
        forall|i: int| 0 <= i < s.len() - 1 ==> #[trigger] p[i + 1] == p[i] + s[i + 1].value(),
    ensures
        inclusive_prefix_sums(s) == p,
        forall|i: int|
            0 <= i < s.len() ==> #[trigger] inclusive_clamped(s)[i] == Trit::from_value(p[i]),
        s.len() > 0 ==> exclusive_clamped(s)[0] == Trit::Zero,
        forall|i: int|
            0 <= i < s.len() - 1 ==> #[trigger] exclusive_clamped(s)[i + 1] == Trit::from_value(p[i]),
{
    law_inclusive_prefix_recurrence(s);
    let q = inclusive_prefix_sums(s);
    assert forall|i: int| 0 <= i < s.len() implies q[i] == p[i] by {
        lemma_running_totals_agree(s, p, q, i);
    }
    assert(q =~= p);
    assert(s.take(0) =~= Seq::<Trit>::empty());
}

/// Two running totals of the same lanes agree lane by lane.
proof fn lemma_running_totals_agree(s: Seq<Trit>, p: Seq<int>, q: Seq<int>, i: int)
    requires
        p.len() == s.len(),
        q.len() == s.len(),
        0 <= i < s.len(),
        p[0] == s[0].value(),
        q[0] == s[0].value(),
        forall|k: int| 0 <= k < s.len() - 1 ==> #[trigger] p[k + 1] == p[k] + s[k + 1].value(),
        forall|k: int| 0 <= k < s.len() - 1 ==> #[trigger] q[k + 1] == q[k] + s[k + 1].value(),
    ensures
        p[i] == q[i],
    decreases i,
{
    if i > 0 {
        lemma_running_totals_agree(s, p, q, i - 1);
        assert(p[(i - 1) + 1] == p[i - 1] + s[(i - 1) + 1].value());
        assert(q[(i - 1) + 1] == q[i - 1] + s[(i - 1) + 1].value());
    }
}

/// Each lane of the clamped inclusive scan is the clamp of the raw inclusive scan.
pub proof fn law_inclusive_clamps_raw(s: Seq<Trit>)
    ensures
        inclusive_clamped(s).len() == inclusive_prefix_sums(s).len(),
        forall|i: int|
            0 <= i < s.len() ==> #[trigger] inclusive_clamped(s)[i] == Trit::from_value(
                inclusive_prefix_sums(s)[i],
            ),
{
}

/// The last lane of an inclusive scan holds the reduction of the whole warp.
pub proof fn law_inclusive_last_is_sum(s: Seq<Trit>)
    requires
        s.len() > 0,
    ensures
        inclusive_prefix_sums(s)[s.len() - 1] == seq_sum(s),
        inclusive_clamped(s)[s.len() - 1] == Trit::from_value(seq_sum(s)),
{
    assert(s.take(s.len() as int) =~= s);
}

/// The exclusive scan starts at Zero and is the inclusive scan shifted up one lane.
pub proof fn law_exclusive_shifts_inclusive(s: Seq<Trit>)
    requires
        s.len() > 0,
    ensures
        exclusive_clamped(s)[0] == Trit::Zero,
        forall|i: int|
            0 <= i < s.len() - 1 ==> #[trigger] exclusive_clamped(s)[i + 1] == inclusive_clamped(s)[i],
{
    assert(s.take(0) =~= Seq::<Trit>::empty());
}

// --- Shuffles ---

/// In a well-formed nonempty warp every shuffle up or down stays inside the warp.
pub proof fn law_shuffles_in_bounds(len: int, delta: int)
    requires
        len > 0,
    ensures
        down_in_bounds(len, len, delta),
        up_in_bounds(len, len, delta),
{
    assert forall|i: int| 0 <= i < len implies #[trigger] down_source(i, len, delta) < len by {
        lemma_mod_bound(i + delta, len);
    }
    assert forall|i: int| 0 <= i < len implies #[trigger] up_source(i, len, delta) < len by {
        lemma_mod_bound(i - delta, len);
    }
}

/// In a well-formed nonempty warp, shuffling up by `delta` undoes shuffling down by
/// `delta`, and the other way round.
pub proof fn law_shuffle_up_undoes_down(s: Seq<Trit>, delta: int)
    requires
        s.len() > 0,
    ensures
        shuffled_up(shuffled_down(s, s.len() as int, delta), s.len() as int, delta) == s,
        shuffled_down(shuffled_up(s, s.len() as int, delta), s.len() as int, delta) == s,
{
    let n = s.len() as int;
    let d = shuffled_down(s, n, delta);
    let u = shuffled_up(s, n, delta);
    assert forall|i: int| 0 <= i < n implies #[trigger] shuffled_up(d, n, delta)[i] == s[i] by {
        lemma_mod_bound(i - delta, n);
        lemma_add_mod_noop(i - delta, delta, n);
        lemma_add_mod_noop_right((i - delta) % n, delta, n);
        lemma_small_mod(i as nat, n as nat);
    }
    assert forall|i: int| 0 <= i < n implies #[trigger] shuffled_down(u, n, delta)[i] == s[i] by {
        lemma_mod_bound(i + delta, n);
        lemma_sub_mod_noop(i + delta, delta, n);
        lemma_sub_mod_noop_right((i + delta) % n, delta, n);
        lemma_small_mod(i as nat, n as nat);
    }
    assert(shuffled_up(d, n, delta) =~= s);
    assert(shuffled_down(u, n, delta) =~= s);
}

/// Shuffling by a multiple of the warp size leaves every lane where it is.
pub proof fn law_shuffle_full_turn(s: Seq<Trit>, delta: int)
    requires
        s.len() > 0,
        delta % (s.len() as int) == 0,
    ensures
        shuffled_down(s, s.len() as int, delta) == s,
        shuffled_up(s, s.len() as int, delta) == s,
{
    let n = s.len() as int;
    assert forall|i: int| 0 <= i < n implies #[trigger] shuffled_down(s, n, delta)[i] == s[i] by {
        lemma_add_mod_noop_right(i, delta, n);
        lemma_small_mod(i as nat, n as nat);
    }
    assert forall|i: int| 0 <= i < n implies #[trigger] shuffled_up(s, n, delta)[i] == s[i] by {
        lemma_sub_mod_noop_right(i, delta, n);
        lemma_small_mod(i as nat, n as nat);
    }
    assert(shuffled_down(s, n, delta) =~= s);
    assert(shuffled_up(s, n, delta) =~= s);
}

/// Gathering a well-formed warp by the identity map copies it, and by the descending
/// map reverses it.
pub proof fn law_gather_identity_and_reverse(s: Seq<Trit>, map: Seq<usize>)
    requires
        map.len() == s.len(),
        s.len() > 0,
    ensures
        (forall|j: int| 0 <= j < map.len() ==> #[trigger] map[j] == j) ==> gathered(
            s,
            map,
            s.len() as int,
        ) == s,
        (forall|j: int| 0 <= j < map.len() ==> #[trigger] map[j] == s.len() - 1 - j) ==> gathered(
            s,
            map,
            s.len() as int,
        ) == s.reverse(),
{
    let n = s.len() as int;
    if forall|j: int| 0 <= j < map.len() ==> #[trigger] map[j] == j {
        assert forall|j: int| 0 <= j < n implies #[trigger] gathered(s, map, n)[j] == s[j] by {
            lemma_small_mod(map[j] as nat, n as nat);
        }
        assert(gathered(s, map, n) =~= s);
    }
    if forall|j: int| 0 <= j < map.len() ==> #[trigger] map[j] == s.len() - 1 - j {
        assert forall|j: int| 0 <= j < n implies #[trigger] gathered(s, map, n)[j] == s.reverse()[j] by {
            lemma_small_mod(map[j] as nat, n as nat);
        }
        assert(gathered(s, map, n) =~= s.reverse());
    }
}

/// Shuffling down by `delta` moves lane `i + delta` to lane `i`, wrapping once past the
/// end of a well-formed warp.
pub proof fn law_shuffle_down_offsets(s: Seq<Trit>, delta: int, i: int)
    requires
        0 <= delta,
        0 <= i < s.len(),
    ensures
        i + delta < s.len() ==> shuffled_down(s, s.len() as int, delta)[i] == s[i + delta],
        s.len() <= i + delta < 2 * s.len() ==> shuffled_down(s, s.len() as int, delta)[i] == s[i
            + delta - s.len()],
{
    let n = s.len() as int;
    if i + delta < n {
        lemma_small_mod((i + delta) as nat, n as nat);
    } else if i + delta < 2 * n {
        lemma_small_mod((i + delta - n) as nat, n as nat);
        lemma_mod_sub_multiples_vanish(i + delta, n);
    }
}

/// Shuffling up by `delta` moves lane `i - delta` to lane `i`, wrapping once past the
/// start of a well-formed warp.
pub proof fn law_shuffle_up_offsets(s: Seq<Trit>, delta: int, i: int)
    requires
        0 <= delta,
        0 <= i < s.len(),
    ensures
        delta <= i ==> shuffled_up(s, s.len() as int, delta)[i] == s[i - delta],
        i < delta <= i + s.len() ==> shuffled_up(s, s.len() as int, delta)[i] == s[i - delta
            + s.len()],
{
    let n = s.len() as int;
    if delta <= i {
        lemma_small_mod((i - delta) as nat, n as nat);
    } else if delta <= i + n {
        lemma_small_mod((i - delta + n) as nat, n as nat);
        lemma_mod_add_multiples_vanish(i - delta, n);
    }
}

/// Shuffling a well-formed warp down by `d1` and then by `d2` is shuffling it down by
/// `d1 + d2`.
pub proof fn law_shuffle_down_composes(s: Seq<Trit>, d1: int, d2: int)
    requires
        s.len() > 0,
    ensures
        shuffled_down(shuffled_down(s, s.len() as int, d1), s.len() as int, d2) == shuffled_down(
            s,
            s.len() as int,
            d1 + d2,
        ),
{
    let n = s.len() as int;
    let once = shuffled_down(s, n, d1);
    assert forall|i: int| 0 <= i < n implies #[trigger] shuffled_down(once, n, d2)[i]
        == shuffled_down(s, n, d1 + d2)[i] by {
        lemma_mod_bound(i + d2, n);
        lemma_add_mod_noop_right(d1, i + d2, n);
        assert((d1 + (i + d2)) % n == (i + (d1 + d2)) % n);
        assert(((i + d2) % n + d1) == (d1 + (i + d2) % n));
    }
    assert(shuffled_down(once, n, d2) =~= shuffled_down(s, n, d1 + d2));
}

/// Each lane of a gather reads the input lane its map entry names, wrapped to the warp size.
pub proof fn law_gather_lanes(s: Seq<Trit>, map: Seq<usize>, n: int)
    ensures
        gathered(s, map, n).len() == map.len(),
        forall|j: int| 0 <= j < map.len() ==> #[trigger] gathered(s, map, n)[j] == s[(map[j] as int) % n],
{
}

/// Gathering a well-formed warp by the map `j -> (j + delta) % n` is shuffling it down by `delta`.
pub proof fn law_gather_rotation_is_shuffle_down(s: Seq<Trit>, map: Seq<usize>, delta: int)
    requires
        s.len() > 0,
        map.len() == s.len(),
        forall|j: int| 0 <= j < map.len() ==> #[trigger] map[j] == (j + delta) % (s.len() as int),
    ensures
        gathered(s, map, s.len() as int) == shuffled_down(s, s.len() as int, delta),
{
    let n = s.len() as int;
    assert forall|j: int| 0 <= j < n implies #[trigger] gathered(s, map, n)[j] == shuffled_down(
        s,
        n,
        delta,
    )[j] by {
        lemma_mod_bound(j + delta, n);
        lemma_small_mod(map[j] as nat, n as nat);
    }
    assert(gathered(s, map, n) =~= shuffled_down(s, n, delta));
}

/// A butterfly exchanges lanes `k` and `k + 1` for every even `k` with `k + 1` inside the
/// warp size, and keeps every lane at or past the warp size, and the last lane of an
/// odd-sized warp.
pub proof fn law_butterfly_swaps_pairs(s: Seq<Trit>, n: int, k: int)
    requires
        pairs_fit(n, s.len() as int),
        0 <= k < s.len(),
    ensures
        k % 2 == 0 && k + 1 < n ==> butterflied(s, n)[k] == s[k + 1] && butterflied(s, n)[k + 1]
            == s[k],
        k >= n || (k + 1 == n && k % 2 == 0) ==> butterflied(s, n)[k] == s[k],
{
}

/// Exchanging the butterfly pairs twice restores the warp.
pub proof fn law_butterfly_involutive(s: Seq<Trit>, n: int)
    requires
        pairs_fit(n, s.len() as int),
    ensures
        butterflied(s, n).len() == s.len(),
        butterflied(butterflied(s, n), n) == s,
{
    let b = butterflied(s, n);
    assert forall|k: int| 0 <= k < s.len() implies #[trigger] butterflied(b, n)[k] == s[k] by {
        assert(0 <= butterfly_partner(k, n) < s.len());
        assert(butterfly_partner(butterfly_partner(k, n), n) == k);
    }
    assert(butterflied(b, n) =~= s);
}

/// Reversing a warp twice restores it.
pub proof fn law_reverse_involutive(s: Seq<Trit>)
    ensures
        s.reverse().reverse() == s,
{
    assert(s.reverse().reverse() =~= s);
}

/// Every lane of a broadcast holds the same trit, so a broadcast warp of any size
/// is unanimous.
pub proof fn law_broadcast_uniform(s: Seq<Trit>, src: int, n: nat)
    requires
        0 <= src < s.len(),
    ensures
        broadcast_of(s, src, n).len() == n,
        forall|k: int| 0 <= k < n ==> #[trigger] broadcast_of(s, src, n)[k] == s[src],
{
}

// --- Votes ---

/// No answers count no trues, and appending an answer adds one exactly when it is true.
pub proof fn law_count_true_structure(s: Seq<bool>, b: bool)
    ensures
        count_true(Seq::<bool>::empty()) == 0,
        count_true(s.push(b)) == count_true(s) + if b { 1nat } else { 0nat },
{
    assert(s.push(b).drop_last() =~= s);
}

/// Over the first `k` lanes, a deterministic predicate's answers count as many
/// trues as the ballot has bits set.
proof fn lemma_answers_match_bits<F: Fn(Trit) -> bool>(
    s: Seq<Trit>,
    pred: F,
    mask: u64,
    answers: Seq<bool>,
    k: int,
)
    requires
        s.len() <= 64,
        0 <= k <= s.len(),
        forall|t: Trit, b1: bool, b2: bool|
            call_ensures(pred, (t,), b1) && call_ensures(pred, (t,), b2) ==> b1 == b2,
        ballot_answers(s, pred, mask),
        answers_of(s, pred, answers),
    ensures
        count_true(answers.take(k)) == bits_below(mask, k),
    decreases k,
{
    if k > 0 {
        lemma_answers_match_bits(s, pred, mask, answers, k - 1);
        assert(answers.take(k).drop_last() =~= answers.take(k - 1));
        assert(call_ensures(pred, (s[k - 1],), lane_bit(mask, k - 1)));
        assert(call_ensures(pred, (s[k - 1],), answers[k - 1]));
    }
}

/// The bits of a ballot past the last lane are clear, so they add no count.
proof fn lemma_bits_past_lanes<F: Fn(Trit) -> bool>(s: Seq<Trit>, pred: F, mask: u64, k: int)
    requires
        s.len() <= k <= 64,
        ballot_answers(s, pred, mask),
    ensures
        bits_below(mask, k) == bits_below(mask, s.len() as int),
    decreases k,
{
    if k > s.len() {
        lemma_bits_past_lanes(s, pred, mask, k - 1);
        assert(!lane_bit(mask, k - 1));
    }
}

/// For a warp of at most 64 lanes and a predicate that always gives the same answer
/// for the same trit, the popcount equals the number of bits set in the ballot.
pub proof fn law_popcount_counts_ballot<F: Fn(Trit) -> bool>(
    s: Seq<Trit>,
    pred: F,
    mask: u64,
    answers: Seq<bool>,
)
    requires
        s.len() <= 64,
        forall|t: Trit, b1: bool, b2: bool|
            call_ensures(pred, (t,), b1) && call_ensures(pred, (t,), b2) ==> b1 == b2,
        ballot_answers(s, pred, mask),
        answers_of(s, pred, answers),
    ensures
        count_true(answers) == bits_below(mask, 64),
{
    lemma_answers_match_bits(s, pred, mask, answers, s.len() as int);
    lemma_bits_past_lanes(s, pred, mask, 64);
    assert(answers.take(s.len() as int) =~= answers);
}

} // verus!
