use ternary_warp_block::{Trit, WarpConfig, WarpReduce, WarpScan, WarpShuffle, WarpVote};

const ALL: [Trit; 3] = [Trit::Negative, Trit::Zero, Trit::Positive];

fn warp_of(lanes: &[i8]) -> WarpConfig {
    WarpConfig::new(lanes.len(), lanes.iter().map(|&v| Trit::from_int(v)).collect())
}

fn warp_from(lanes: Vec<Trit>) -> WarpConfig {
    WarpConfig::new(lanes.len(), lanes)
}

#[test]
fn trit_int_round_trip() {
    for t in ALL {
        assert_eq!(Trit::from_int(t.to_int()), t);
    }
    assert_eq!(Trit::Negative.to_int(), -1);
    assert_eq!(Trit::Zero.to_int(), 0);
    assert_eq!(Trit::Positive.to_int(), 1);
}

#[test]
fn trit_from_int_extremes() {
    assert_eq!(Trit::from_int(i8::MIN), Trit::Negative);
    assert_eq!(Trit::from_int(i8::MAX), Trit::Positive);
    assert_eq!(Trit::from_int(-2), Trit::Negative);
    assert_eq!(Trit::from_int(2), Trit::Positive);
}

#[test]
fn trit_is_nonzero() {
    assert!(Trit::Negative.is_nonzero());
    assert!(!Trit::Zero.is_nonzero());
    assert!(Trit::Positive.is_nonzero());
}

#[test]
fn trit_neg_involutive() {
    for t in ALL {
        assert_eq!(-(-t), t);
        assert_eq!((-t).to_int(), -t.to_int());
    }
}

#[test]
fn trit_add_laws() {
    for a in ALL {
        assert_eq!(a + Trit::Zero, a);
        assert_eq!(a + (-a), Trit::Zero);
        for b in ALL {
            assert_eq!(a + b, b + a);
        }
    }
    assert_eq!(Trit::Negative + Trit::Negative, Trit::Negative);
}

#[test]
fn trit_mul_laws() {
    for a in ALL {
        assert_eq!(a * Trit::Positive, a);
        assert_eq!(a * Trit::Zero, Trit::Zero);
        assert_eq!(a * Trit::Negative, -a);
        for b in ALL {
            assert_eq!(a * b, b * a);
            assert_eq!((a * b).to_int(), a.to_int() * b.to_int());
            for c in ALL {
                assert_eq!((a * b) * c, a * (b * c));
            }
        }
    }
    assert_eq!(Trit::Negative * Trit::Negative, Trit::Positive);
}

#[test]
fn warp_new_and_lanes() {
    let warp = warp_of(&[1, 0, -1]);
    assert_eq!(warp.warp_size, 3);
    assert_eq!(warp.lane(0), Trit::Positive);
    assert_eq!(warp.lane(1), Trit::Zero);
    assert_eq!(warp.lane(2), Trit::Negative);
}

#[test]
fn warp_set_lane_then_read() {
    let mut warp = WarpConfig::zeroed(4);
    warp.set_lane(2, Trit::Negative);
    assert_eq!(warp.lane(2), Trit::Negative);
    assert_eq!(warp.lane(0), Trit::Zero);
    assert_eq!(warp.lane(3), Trit::Zero);
    assert_eq!(warp.warp_size, 4);
    assert_eq!(warp.lanes.len(), 4);
}

#[test]
fn warp_zeroed_empty() {
    let warp = WarpConfig::zeroed(0);
    assert_eq!(warp.warp_size, 0);
    assert!(warp.lanes.is_empty());
}

#[test]
fn zeroed_warp_sums_to_zero() {
    let warp = WarpConfig::zeroed(5);
    assert_eq!(WarpReduce::sum_raw(&warp), 0);
    assert_eq!(WarpReduce::sum(&warp), Trit::Zero);
    assert_eq!(WarpReduce::majority(&warp), Trit::Zero);
    assert!(!WarpVote::any_nonzero(&warp));
}

#[test]
fn sum_raw_is_count_difference() {
    let warp = warp_of(&[1, 1, 1, -1, 0, 0, 1, -1]);
    let pos = WarpVote::popcount(&warp, |t| t == Trit::Positive) as i64;
    let neg = WarpVote::popcount(&warp, |t| t == Trit::Negative) as i64;
    assert_eq!(WarpReduce::sum_raw(&warp), pos - neg);
    assert_eq!(WarpReduce::sum_raw(&warp), 2);
    assert_eq!(WarpReduce::sum(&warp), Trit::Positive);
}

#[test]
fn sum_of_empty_warp() {
    let warp = WarpConfig::zeroed(0);
    assert_eq!(WarpReduce::sum_raw(&warp), 0);
    assert_eq!(WarpReduce::sum(&warp), Trit::Zero);
}

#[test]
fn majority_ties_prefer_zero_then_positive() {
    assert_eq!(WarpReduce::majority(&warp_of(&[1, 0])), Trit::Zero);
    assert_eq!(WarpReduce::majority(&warp_of(&[-1, 0])), Trit::Zero);
    assert_eq!(WarpReduce::majority(&warp_of(&[1, -1])), Trit::Positive);
    assert_eq!(WarpReduce::majority(&warp_of(&[1, -1, 0])), Trit::Zero);
    assert_eq!(WarpReduce::majority(&warp_of(&[])), Trit::Zero);
    assert_eq!(WarpReduce::majority(&warp_of(&[-1, -1, 1, 0])), Trit::Negative);
}

#[test]
fn unanimous_warp() {
    for t in ALL {
        let warp = warp_from(vec![t; 6]);
        assert_eq!(WarpReduce::majority(&warp), t);
        assert_eq!(WarpReduce::max(&warp), t);
        assert_eq!(WarpReduce::min(&warp), t);
        assert!(WarpVote::all_same(&warp));
    }
}

#[test]
fn max_min_of_empty_warp() {
    let warp = WarpConfig::zeroed(0);
    assert_eq!(WarpReduce::max(&warp), Trit::Zero);
    assert_eq!(WarpReduce::min(&warp), Trit::Zero);
    assert!(WarpReduce::all_positive(&warp));
    assert!(!WarpReduce::any_positive(&warp));
}

#[test]
fn min_le_max() {
    let warp = warp_of(&[0, 1, -1, 1]);
    assert_eq!(WarpReduce::min(&warp), Trit::Negative);
    assert_eq!(WarpReduce::max(&warp), Trit::Positive);
    assert!(WarpReduce::min(&warp).to_int() <= WarpReduce::max(&warp).to_int());
}

#[test]
fn inclusive_last_is_sum() {
    let warp = warp_of(&[-1, -1, 1, -1, 0]);
    let raw = WarpScan::inclusive_sum_raw(&warp);
    assert_eq!(raw, vec![-1, -2, -1, -2, -2]);
    assert_eq!(*raw.last().unwrap(), WarpReduce::sum_raw(&warp));
    let clamped = WarpScan::inclusive_sum(&warp);
    assert_eq!(clamped, vec![Trit::Negative; 5]);
    assert_eq!(*clamped.last().unwrap(), WarpReduce::sum(&warp));
}

#[test]
fn inclusive_clamps_raw() {
    let warp = warp_of(&[1, -1, -1, 1, 1, 0]);
    let raw = WarpScan::inclusive_sum_raw(&warp);
    let clamped = WarpScan::inclusive_sum(&warp);
    assert_eq!(raw, vec![1, 0, -1, 0, 1, 1]);
    for (r, c) in raw.iter().zip(clamped.iter()) {
        assert_eq!(Trit::from_int(*r as i8), *c);
    }
}

#[test]
fn exclusive_shifts_inclusive() {
    let warp = warp_of(&[-1, 0, 1, 1, -1]);
    let inc = WarpScan::inclusive_sum(&warp);
    let exc = WarpScan::exclusive_sum(&warp);
    assert_eq!(exc[0], Trit::Zero);
    for i in 0..4 {
        assert_eq!(exc[i + 1], inc[i]);
    }
    assert_eq!(
        exc,
        vec![Trit::Zero, Trit::Negative, Trit::Negative, Trit::Zero, Trit::Positive]
    );
}

#[test]
fn scans_of_empty_warp() {
    let warp = WarpConfig::zeroed(0);
    assert!(WarpScan::inclusive_sum(&warp).is_empty());
    assert!(WarpScan::inclusive_sum_raw(&warp).is_empty());
    assert!(WarpScan::exclusive_sum(&warp).is_empty());
}

#[test]
fn inclusive_scan_with_clamped_add() {
    let warp = warp_of(&[1, 1, -1, -1, -1]);
    let result = WarpScan::inclusive_scan(&warp, |a, b| a + b);
    assert_eq!(
        result,
        vec![Trit::Positive, Trit::Positive, Trit::Zero, Trit::Negative, Trit::Negative]
    );
}

#[test]
fn inclusive_scan_single_lane() {
    let warp = warp_of(&[-1]);
    let result = WarpScan::inclusive_scan(&warp, |a, b| a * b);
    assert_eq!(result, vec![Trit::Negative]);
}

#[test]
fn shuffle_up_undoes_down() {
    let warp = warp_of(&[1, -1, 0, 1, -1]);
    for delta in 0..12 {
        let down = warp_from(WarpShuffle::shuffle_down(&warp, delta));
        assert_eq!(WarpShuffle::shuffle_up(&down, delta), warp.lanes);
        let up = warp_from(WarpShuffle::shuffle_up(&warp, delta));
        assert_eq!(WarpShuffle::shuffle_down(&up, delta), warp.lanes);
    }
}

#[test]
fn shuffle_wraps_large_delta() {
    let warp = warp_of(&[1, -1, 0, 1]);
    assert_eq!(WarpShuffle::shuffle_down(&warp, 5), WarpShuffle::shuffle_down(&warp, 1));
    assert_eq!(WarpShuffle::shuffle_up(&warp, 9), WarpShuffle::shuffle_up(&warp, 1));
    assert_eq!(WarpShuffle::shuffle_down(&warp, usize::MAX), WarpShuffle::shuffle_up(&warp, 1));
}

#[test]
fn shuffle_full_turn_is_identity() {
    let warp = warp_of(&[1, -1, 0, 1]);
    assert_eq!(WarpShuffle::shuffle_down(&warp, 4), warp.lanes);
    assert_eq!(WarpShuffle::shuffle_up(&warp, 8), warp.lanes);
    assert_eq!(WarpShuffle::shuffle_down(&warp, 0), warp.lanes);
}

#[test]
fn shuffles_of_empty_warp() {
    let warp = WarpConfig::zeroed(0);
    assert!(WarpShuffle::shuffle_down(&warp, 3).is_empty());
    assert!(WarpShuffle::shuffle_up(&warp, 3).is_empty());
    assert!(WarpShuffle::butterfly(&warp).is_empty());
    assert!(WarpShuffle::reverse(&warp).is_empty());
    assert!(WarpShuffle::shuffle_idx(&warp, &[]).is_empty());
}

#[test]
fn shuffle_idx_wraps_sources() {
    let warp = warp_of(&[1, -1, 0, 1]);
    let result = WarpShuffle::shuffle_idx(&warp, &[4, 5, 6, 7]);
    assert_eq!(result, warp.lanes);
    let result = WarpShuffle::shuffle_idx(&warp, &[2, 2, 9, 0]);
    assert_eq!(result, vec![Trit::Zero, Trit::Zero, Trit::Negative, Trit::Positive]);
}

#[test]
fn shuffle_idx_descending_is_reverse() {
    let warp = warp_of(&[1, 0, -1, -1, 1]);
    let result = WarpShuffle::shuffle_idx(&warp, &[4, 3, 2, 1, 0]);
    assert_eq!(result, WarpShuffle::reverse(&warp));
}

#[test]
fn butterfly_odd_warp_keeps_last_lane() {
    let warp = warp_of(&[1, 0, -1]);
    assert_eq!(
        WarpShuffle::butterfly(&warp),
        vec![Trit::Zero, Trit::Positive, Trit::Negative]
    );
}

#[test]
fn butterfly_involutive() {
    let warp = warp_of(&[1, 0, -1, -1, 0, 1]);
    let once = warp_from(WarpShuffle::butterfly(&warp));
    assert_eq!(once.lanes, vec![Trit::Zero, Trit::Positive, Trit::Negative, Trit::Negative, Trit::Positive, Trit::Zero]);
    assert_eq!(WarpShuffle::butterfly(&once), warp.lanes);
}

#[test]
fn reverse_involutive() {
    let warp = warp_of(&[1, 0, -1, -1, 0]);
    let once = warp_from(WarpShuffle::reverse(&warp));
    assert_eq!(once.lanes, vec![Trit::Zero, Trit::Negative, Trit::Negative, Trit::Zero, Trit::Positive]);
    assert_eq!(WarpShuffle::reverse(&once), warp.lanes);
}

#[test]
fn broadcast_is_uniform() {
    let warp = warp_of(&[0, 1, -1]);
    let b = warp_from(WarpShuffle::broadcast(&warp, 2));
    assert_eq!(b.lanes, vec![Trit::Negative; 3]);
    assert!(WarpVote::all_same(&b));
    let empty = WarpConfig::new(0, Vec::new());
    let _ = empty;
}

#[test]
fn all_same_single_lane() {
    assert!(WarpVote::all_same(&warp_of(&[-1])));
}

#[test]
fn all_implies_any() {
    let warp = warp_of(&[1, 1]);
    assert!(WarpReduce::all_positive(&warp));
    assert!(WarpReduce::any_positive(&warp));
    let warp = warp_of(&[-1, 1, -1]);
    assert!(WarpVote::all_nonzero(&warp));
    assert!(WarpVote::any_nonzero(&warp));
}

#[test]
fn ballot_ignores_lanes_past_64() {
    let warp = warp_from(vec![Trit::Positive; 70]);
    assert_eq!(WarpVote::ballot(&warp, |t| t == Trit::Positive), u64::MAX);
    assert_eq!(WarpVote::popcount(&warp, |t| t == Trit::Positive), 70);
    assert_eq!(WarpVote::ballot(&warp, |t| t == Trit::Zero), 0);
}

#[test]
fn ballot_bit_63() {
    let mut lanes = vec![Trit::Zero; 64];
    lanes[63] = Trit::Negative;
    let warp = warp_from(lanes);
    assert_eq!(WarpVote::ballot(&warp, |t| t.is_nonzero()), 1u64 << 63);
}

#[test]
fn popcount_matches_ballot() {
    let warp = warp_of(&[1, 0, -1, 1, 0, -1, -1, 1, 1]);
    let preds: [fn(Trit) -> bool; 3] = [
        |t| t == Trit::Positive,
        |t| t.is_nonzero(),
        |t| t == Trit::Zero,
    ];
    for p in preds {
        let mask = WarpVote::ballot(&warp, p);
        let count = WarpVote::popcount(&warp, p);
        assert_eq!(mask.count_ones() as usize, count);
    }
    assert_eq!(WarpVote::ballot(&warp, |t| t == Trit::Negative), 0b0110_0100);
}
