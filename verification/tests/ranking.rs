use order_stats::error::StatsError;
use order_stats::ranks::{ranks, Rank, RankTieBreaker};

fn values(r: &[Rank]) -> Vec<f64> {
    r.iter().map(|x| x.whole as f64 + if x.half { 0.5 } else { 0.0 }).collect()
}

fn whole(w: usize) -> Rank {
    Rank { whole: w, half: false }
}

#[test]
fn ranks_first_follows_the_order_of_the_sample() {
    let s: Vec<i64> = vec![1, 2, 2, 3];
    let r = ranks(&s, RankTieBreaker::First).unwrap();
    assert_eq!(r, vec![whole(1), whole(2), whole(3), whole(4)]);
    assert_eq!(values(&r), vec![1.0, 2.0, 3.0, 4.0]);
}

#[test]
fn ranks_average_shares_the_mean() {
    let s: Vec<i64> = vec![1, 2, 2, 3];
    let r = ranks(&s, RankTieBreaker::Average).unwrap();
    assert_eq!(
        r,
        vec![whole(1), Rank { whole: 2, half: true }, Rank { whole: 2, half: true }, whole(4)]
    );
    assert_eq!(values(&r), vec![1.0, 2.5, 2.5, 4.0]);
}

#[test]
fn ranks_min_and_max_take_the_ends_of_the_block() {
    let s: Vec<i64> = vec![1, 2, 2, 3];
    let r = ranks(&s, RankTieBreaker::Min).unwrap();
    assert_eq!(values(&r), vec![1.0, 2.0, 2.0, 4.0]);
    let r = ranks(&s, RankTieBreaker::Max).unwrap();
    assert_eq!(values(&r), vec![1.0, 3.0, 3.0, 4.0]);
}

#[test]
fn ranks_on_empty_sample_is_empty_input() {
    let s: Vec<i64> = vec![];
    for policy in [
        RankTieBreaker::First,
        RankTieBreaker::Average,
        RankTieBreaker::Min,
        RankTieBreaker::Max,
    ] {
        assert_eq!(ranks(&s, policy), Err(StatsError::EmptyInput));
    }
}

#[test]
fn ranks_of_unsorted_sample_come_in_the_order_of_the_sample() {
    let s: Vec<i64> = vec![30, 10, 20];
    for policy in [
        RankTieBreaker::First,
        RankTieBreaker::Average,
        RankTieBreaker::Min,
        RankTieBreaker::Max,
    ] {
        assert_eq!(ranks(&s, policy).unwrap(), vec![whole(3), whole(1), whole(2)]);
    }
    assert_eq!(s, vec![30, 10, 20]);
}

#[test]
fn ranks_first_with_scattered_ties() {
    let s: Vec<i64> = vec![5, 1, 5, 1, 5, 0];
    let r = ranks(&s, RankTieBreaker::First).unwrap();
    assert_eq!(values(&r), vec![4.0, 2.0, 5.0, 3.0, 6.0, 1.0]);
    let r = ranks(&s, RankTieBreaker::Min).unwrap();
    assert_eq!(values(&r), vec![4.0, 2.0, 4.0, 2.0, 4.0, 1.0]);
    let r = ranks(&s, RankTieBreaker::Max).unwrap();
    assert_eq!(values(&r), vec![6.0, 3.0, 6.0, 3.0, 6.0, 1.0]);
    let r = ranks(&s, RankTieBreaker::Average).unwrap();
    assert_eq!(values(&r), vec![5.0, 2.5, 5.0, 2.5, 5.0, 1.0]);
}

#[test]
fn ranks_of_all_equal_values() {
    let s: Vec<i64> = vec![7, 7, 7, 7];
    assert_eq!(values(&ranks(&s, RankTieBreaker::First).unwrap()), vec![1.0, 2.0, 3.0, 4.0]);
    assert_eq!(values(&ranks(&s, RankTieBreaker::Min).unwrap()), vec![1.0; 4]);
    assert_eq!(values(&ranks(&s, RankTieBreaker::Max).unwrap()), vec![4.0; 4]);
    assert_eq!(values(&ranks(&s, RankTieBreaker::Average).unwrap()), vec![2.5; 4]);
}

#[test]
fn ranks_of_single_element() {
    let s: Vec<i64> = vec![i64::MIN];
    for policy in [
        RankTieBreaker::First,
        RankTieBreaker::Average,
        RankTieBreaker::Min,
        RankTieBreaker::Max,
    ] {
        assert_eq!(ranks(&s, policy).unwrap(), vec![whole(1)]);
    }
}

#[test]
fn average_ranks_add_up_whatever_is_equal() {
    let samples: Vec<Vec<i64>> = vec![
        vec![1],
        vec![2, 2],
        vec![3, 1, 2],
        vec![1, 2, 2, 3],
        vec![4, 4, 4, 4, 4],
        vec![9, -1, 9, 0, 0, 0, 3, i64::MAX, i64::MIN, 3],
    ];
    for s in samples {
        let n = s.len();
        let r = ranks(&s, RankTieBreaker::Average).unwrap();
        let twice: usize = r.iter().map(|x| 2 * x.whole + x.half as usize).sum();
        assert_eq!(twice, n * (n + 1));
    }
}

#[test]
fn ranks_stay_within_one_and_the_length() {
    let s: Vec<i64> = vec![9, -1, 9, 0, 0, 0, 3, 12, -5, 3];
    let n = s.len();
    for policy in [RankTieBreaker::First, RankTieBreaker::Min, RankTieBreaker::Max] {
        for r in ranks(&s, policy).unwrap() {
            assert!(!r.half);
            assert!(1 <= r.whole && r.whole <= n);
        }
    }
    for r in ranks(&s, RankTieBreaker::Average).unwrap() {
        let twice = 2 * r.whole + r.half as usize;
        assert!(2 <= twice && twice <= 2 * n);
    }
}

#[test]
fn rank_in_block_by_policy() {
    // a block of three equal values at sorted positions 4, 5 and 6
    assert_eq!(RankTieBreaker::First.rank_in_block(4, 7, 5), whole(6));
    assert_eq!(RankTieBreaker::Min.rank_in_block(4, 7, 5), whole(5));
    assert_eq!(RankTieBreaker::Max.rank_in_block(4, 7, 5), whole(7));
    assert_eq!(RankTieBreaker::Average.rank_in_block(4, 7, 5), whole(6));
    // a block of two at sorted positions 1 and 2
    assert_eq!(RankTieBreaker::Average.rank_in_block(1, 3, 1), Rank { whole: 2, half: true });
}

#[test]
fn ranks_of_zeros_tie_under_the_key_of_zero() {
    // both zeros of the doubles are handed over under the key of zero
    let xs: Vec<f64> = vec![0.0, -0.0, 1.0];
    let ks: Vec<i64> = xs
        .iter()
        .map(|x| order_stats::keys::ordered_key(if *x == 0.0 { 0.0f64 } else { *x }.to_bits()))
        .collect();
    let r = ranks(&ks, RankTieBreaker::Min).unwrap();
    assert_eq!(r, vec![whole(1), whole(1), whole(3)]);
}
