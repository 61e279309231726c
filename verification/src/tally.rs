//! Vote signs, threshold policies, and the per-proposal tally.
//!
//! A tally tracks three aggregates of the live vote set for one voting:
//! the number of open votes, the stake behind the positive ones, and the
//! stake behind all of them. The aggregates are updated by the exact delta
//! of each vote or unvote, never recomputed. The threshold evaluator is a
//! pure function of a tally, a policy, and the live total supply.

use vstd::prelude::*;

use crate::errors::Error;

verus! {

/// Fixed-point scale of relative threshold fractions: parts per million.
pub const DENOM: u64 = 1_000_000;

/// The largest configurable relative fraction: the whole supply.
pub const THRESHOLD_LIMIT: u64 = 1_000_000;

/// Which way a vote counts.
#[derive(Clone, Copy, PartialEq, Eq, Structural, Debug)]
pub enum Sign {
    Positive,
    Negative,
}

/// The threshold policy of a voting, fixed at creation.
#[derive(Clone, Copy, PartialEq, Eq, Structural, Debug)]
pub enum Threshold {
    /// Reached when the positive stake is at least this amount.
    Absolute(u128),
    /// Reached when positive stake / live total supply is at least this
    /// fraction, scaled by [`DENOM`].
    Relative(u64),
    /// Reached when positive stake / live total supply is at least the
    /// complement `THRESHOLD_LIMIT - fraction`: all but an exempt fraction
    /// must approve.
    RelativeExcept(u64),
}

impl Threshold {
    /// A relative fraction may not exceed the protocol-wide limit.
    pub open spec fn wf(self) -> bool {
        match self {
            Threshold::Absolute(_) => true,
            Threshold::Relative(f) => f <= THRESHOLD_LIMIT,
            Threshold::RelativeExcept(f) => f <= THRESHOLD_LIMIT,
        }
    }

    /// Decides [`Threshold::wf`] at run time; checked once, at creation.
    pub fn is_valid(&self) -> (r: bool)
        ensures
            r == self.wf(),
    {
        match self {
            Threshold::Absolute(_) => true,
            Threshold::Relative(f) => *f <= THRESHOLD_LIMIT,
            Threshold::RelativeExcept(f) => *f <= THRESHOLD_LIMIT,
        }
    }
}

/// The aggregate vote counters of one voting.
#[derive(Clone, Copy, PartialEq, Eq, Structural, Debug)]
pub struct TallyState {
    /// Count of open votes (distinct voters).
    pub votes: u128,
    /// Stake behind the open positive votes.
    pub yas: u128,
    /// Stake behind all open votes, positive and negative.
    pub sum: u128,
}

/// What casting a vote does to a tally.
pub open spec fn spec_apply_vote(t: TallyState, sign: Sign, stake: u64) -> TallyState {
    TallyState {
        votes: (t.votes + 1) as u128,
        yas: if sign is Positive {
            (t.yas + stake) as u128
        } else {
            t.yas
        },
        sum: (t.sum + stake) as u128,
    }
}

/// What withdrawing a vote does to a tally; `None` when a field would go
/// negative, which signals a ledger/tally desync.
pub open spec fn spec_apply_unvote(t: TallyState, sign: Sign, stake: u64) -> Option<TallyState> {
    if t.votes >= 1 && t.sum >= stake && (sign is Positive ==> t.yas >= stake) {
        Some(
            TallyState {
                votes: (t.votes - 1) as u128,
                yas: if sign is Positive {
                    (t.yas - stake) as u128
                } else {
                    t.yas
                },
                sum: (t.sum - stake) as u128,
            },
        )
    } else {
        None
    }
}

/// Whether a tally satisfies a threshold policy against the live supply.
///
/// Relative policies compare by integer cross-multiplication, and a supply
/// of zero is never reached: approval of nothing is not vacuously true.
pub open spec fn spec_reached(t: TallyState, th: Threshold, total: u64) -> bool {
    match th {
        Threshold::Absolute(a) => t.yas >= a,
        Threshold::Relative(f) => total > 0 && t.yas * DENOM >= f * total,
        Threshold::RelativeExcept(f) => total > 0 && t.yas * DENOM >= (THRESHOLD_LIMIT - f)
            * total,
    }
}

impl TallyState {
    /// The tally of a voting nobody has voted on.
    pub fn zero() -> (r: TallyState)
        ensures
            r == (TallyState { votes: 0, yas: 0, sum: 0 }),
    {
        TallyState { votes: 0, yas: 0, sum: 0 }
    }

    /// Adds one vote's exact delta to the aggregates.
    pub fn apply_vote(self, sign: Sign, stake: u64) -> (r: TallyState)
        requires
            self.votes + 1 <= u128::MAX,
            self.sum + stake <= u128::MAX,
            self.yas <= self.sum,
        ensures
            r == spec_apply_vote(self, sign, stake),
            r.yas <= r.sum,
    {
        TallyState {
            votes: self.votes + 1,
            yas: if matches!(sign, Sign::Positive) {
                self.yas + stake as u128
            } else {
                self.yas
            },
            sum: self.sum + stake as u128,
        }
    }

    /// Removes one vote's exact delta from the aggregates. Underflow means
    /// the ledger and the tally disagree; it is reported, never wrapped.
    pub fn apply_unvote(self, sign: Sign, stake: u64) -> (r: Result<TallyState, Error>)
        ensures
            match r {
                Ok(t2) => spec_apply_unvote(self, sign, stake) == Some(t2),
                Err(e) => e == Error::ArithmeticUnderflow && spec_apply_unvote(self, sign, stake)
                    is None,
            },
    {
        if self.votes >= 1 && self.sum >= stake as u128 && (matches!(sign, Sign::Negative)
            || self.yas >= stake as u128) {
            Ok(
                TallyState {
                    votes: self.votes - 1,
                    yas: if matches!(sign, Sign::Positive) {
                        self.yas - stake as u128
                    } else {
                        self.yas
                    },
                    sum: self.sum - stake as u128,
                },
            )
        } else {
            Err(Error::ArithmeticUnderflow)
        }
    }

    /// Decides whether this tally reaches `th` against the live `total`
    /// supply, by exact integer arithmetic.
    pub fn is_reached(&self, th: Threshold, total: u64) -> (r: bool)
        requires
            th.wf(),
        ensures
            r == spec_reached(*self, th, total),
    {
        match th {
            Threshold::Absolute(a) => self.yas >= a,
            Threshold::Relative(f) => cross_at_least(self.yas, f, total),
            Threshold::RelativeExcept(f) => cross_at_least(self.yas, THRESHOLD_LIMIT - f, total),
        }
    }
}

/// Decides `yas * DENOM >= f * total` for a positive supply without
/// overflow: a positive stake beyond `u64::MAX` outweighs any fraction of
/// any supply, and below that bound both products fit in `u128`.
fn cross_at_least(yas: u128, f: u64, total: u64) -> (r: bool)
    requires
        f <= DENOM,
    ensures
        r == (total > 0 && yas * DENOM >= f * total),
{
    if total == 0 {
        false
    } else if yas > u64::MAX as u128 {
        proof {
            assert(yas * DENOM >= f * total) by (nonlinear_arith)
                requires
                    yas > u64::MAX as u128,
                    f <= DENOM,
                    total <= u64::MAX,
                    DENOM == 1_000_000,
            {
            }
        }
        true
    } else {
        proof {
            assert(f * total <= u128::MAX) by (nonlinear_arith)
                requires
                    f <= DENOM,
                    total <= u64::MAX,
                    DENOM == 1_000_000,
            {
            }
        }
        yas * (DENOM as u128) >= (f as u128) * (total as u128)
    }
}

/// Casting a vote and then withdrawing the same vote restores the tally
/// that stood before either operation: vote/unvote round-trips cancel.
pub proof fn lemma_vote_unvote_roundtrip(t: TallyState, sign: Sign, stake: u64)
    requires
        t.votes + 1 <= u128::MAX,
        t.sum + stake <= u128::MAX,
        t.yas <= t.sum,
    ensures
        spec_apply_unvote(spec_apply_vote(t, sign, stake), sign, stake) == Some(t),
{
}

} // verus!
