//! The error taxonomy of the voting engine.
//!
//! Validation and lookup errors are reported before any state is written, so
//! every failing operation leaves the engine exactly as it was.

use vstd::prelude::*;

verus! {

/// Everything a lifecycle operation can report instead of succeeding.
#[derive(Clone, Copy, PartialEq, Eq, Structural, Debug)]
pub enum Error {
    /// A relative threshold fraction lies above the protocol-wide limit.
    InvalidThreshold,
    /// The caller-supplied voting id differs from the content-derived one.
    IdMismatch,
    /// A voting with this id already exists.
    DuplicateId,
    /// No voting with this id exists.
    UnknownVoting,
    /// No stored call with this digest exists.
    UnknownCall,
    /// The voter already has an open vote on this voting.
    AlreadyVoted,
    /// The current time lies before the voting's start or at/after its end.
    VotingNotOpen,
    /// The caller holds no stake in the voting's asset.
    NoStake,
    /// The voter has no open vote on this voting to withdraw.
    NoSuchVote,
    /// The voting has no tally yet, so there is nothing to evaluate.
    NotVotedYet,
    /// The tally does not satisfy the voting's threshold policy.
    ThresholdNotReached,
    /// The caller may not close this voting now.
    NotAuthorized,
    /// A tally field would go negative: a desync that must never occur.
    ArithmeticUnderflow,
}

} // verus!
