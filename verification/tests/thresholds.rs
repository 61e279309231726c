use stake_voting::errors::Error;
use stake_voting::tally::Sign;
use stake_voting::tally::TallyState;
use stake_voting::tally::Threshold;
use stake_voting::tally::DENOM;
use stake_voting::tally::THRESHOLD_LIMIT;

#[test]
fn absolute_threshold_boundary() {
    let t = TallyState { votes: 2, yas: 150, sum: 200 };
    assert!(t.is_reached(Threshold::Absolute(150), 300));
    assert!(!t.is_reached(Threshold::Absolute(151), 300));
    // an absolute threshold ignores the supply entirely
    assert!(t.is_reached(Threshold::Absolute(150), 0));
}

#[test]
fn relative_threshold_exact_cross_multiplication() {
    // 150 of 300 is exactly 50%
    let t = TallyState { votes: 2, yas: 150, sum: 150 };
    assert!(t.is_reached(Threshold::Relative(500_000), 300));
    // one unit less misses the boundary
    let t2 = TallyState { votes: 2, yas: 149, sum: 149 };
    assert!(!t2.is_reached(Threshold::Relative(500_000), 300));
    // 100 of 300 is 33%: short of 50%
    let t3 = TallyState { votes: 1, yas: 100, sum: 100 };
    assert!(!t3.is_reached(Threshold::Relative(500_000), 300));
}

#[test]
fn zero_supply_is_never_reached_for_relative_policies() {
    let t = TallyState { votes: 0, yas: 0, sum: 0 };
    assert!(!t.is_reached(Threshold::Relative(0), 0));
    assert!(!t.is_reached(Threshold::RelativeExcept(THRESHOLD_LIMIT), 0));
    let t2 = TallyState { votes: 1, yas: 10, sum: 10 };
    assert!(!t2.is_reached(Threshold::Relative(500_000), 0));
}

#[test]
fn relative_except_is_the_complement_of_the_limit() {
    // an exempt fraction of 40% demands 60% approval
    let f = 400_000;
    let t = TallyState { votes: 1, yas: 60, sum: 60 };
    assert!(t.is_reached(Threshold::RelativeExcept(f), 100));
    let t2 = TallyState { votes: 1, yas: 59, sum: 59 };
    assert!(!t2.is_reached(Threshold::RelativeExcept(f), 100));
    // exempting everything demands nothing, on a live supply
    let t3 = TallyState { votes: 0, yas: 0, sum: 0 };
    assert!(t3.is_reached(Threshold::RelativeExcept(THRESHOLD_LIMIT), 100));
}

#[test]
fn huge_stakes_outweigh_any_fraction() {
    let t = TallyState { votes: 1, yas: (u64::MAX as u128) + 1, sum: (u64::MAX as u128) + 1 };
    assert!(t.is_reached(Threshold::Relative(DENOM), u64::MAX));
}

#[test]
fn apply_vote_adds_the_exact_delta() {
    let t = TallyState { votes: 1, yas: 30, sum: 50 };
    let t2 = t.apply_vote(Sign::Positive, 20);
    assert_eq!(t2, TallyState { votes: 2, yas: 50, sum: 70 });
    let t3 = t2.apply_vote(Sign::Negative, 5);
    assert_eq!(t3, TallyState { votes: 3, yas: 50, sum: 75 });
}

#[test]
fn apply_unvote_is_the_exact_inverse() {
    let t = TallyState { votes: 1, yas: 30, sum: 50 };
    let voted = t.apply_vote(Sign::Positive, 20);
    assert_eq!(voted.apply_unvote(Sign::Positive, 20), Ok(t));
    let negated = t.apply_vote(Sign::Negative, 20);
    assert_eq!(negated.apply_unvote(Sign::Negative, 20), Ok(t));
}

#[test]
fn apply_unvote_reports_underflow_instead_of_wrapping() {
    let zero = TallyState { votes: 0, yas: 0, sum: 0 };
    assert_eq!(
        zero.apply_unvote(Sign::Positive, 1),
        Err(Error::ArithmeticUnderflow)
    );
    // a positive withdrawal larger than the positive stake is a desync
    let t = TallyState { votes: 1, yas: 0, sum: 10 };
    assert_eq!(
        t.apply_unvote(Sign::Positive, 10),
        Err(Error::ArithmeticUnderflow)
    );
    assert_eq!(
        t.apply_unvote(Sign::Negative, 10),
        Ok(TallyState { votes: 0, yas: 0, sum: 0 })
    );
}

#[test]
fn threshold_validity_follows_the_limit() {
    assert!(Threshold::Absolute(u128::MAX).is_valid());
    assert!(Threshold::Relative(THRESHOLD_LIMIT).is_valid());
    assert!(!Threshold::Relative(THRESHOLD_LIMIT + 1).is_valid());
    assert!(Threshold::RelativeExcept(0).is_valid());
    assert!(!Threshold::RelativeExcept(THRESHOLD_LIMIT + 1).is_valid());
}
