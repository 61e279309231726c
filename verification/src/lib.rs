//! A stake-weighted governance engine.
//!
//! Holders of fractional shares of a tokenized asset propose an opaque
//! action (a "call") and vote on it; voting power is each holder's share of
//! the asset's total supply. A proposal executes once its threshold policy
//! is satisfied against the live total supply, or is closed without effect.
//!
//! The engine itself is deterministic and side-effect free: the values that
//! only external collaborators can produce (a holder's current stake, the
//! live total supply, the current time) are passed in as plain arguments,
//! and the effects the caller must perform (reserving or refunding a
//! deposit, dispatching the approved call) are returned as plain values.

pub mod assoc;
pub mod bytes;
pub mod engine;
pub mod errors;
pub mod hashing;
pub mod ledger;
pub mod tally;
pub mod voting;
