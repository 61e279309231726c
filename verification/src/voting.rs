//! The voting record: one proposal's identity, target asset, temporal
//! window, threshold policy and the digest of its stored call.
//!
//! A voting's identifier is derived from a digest of the encoded record, so
//! identical-content proposals collide instead of duplicating. The encoding
//! is a fixed little-endian byte layout defined here.

use vstd::prelude::*;

use crate::hashing::call_digest_of;
use crate::hashing::id_digest_of;
use crate::hashing::blake2_256_bytes;
use crate::hashing::twox_256_bytes;
use crate::tally::Threshold;

verus! {

/// One proposal, as stored in the registry under its derived id.
pub struct Voting {
    /// The account that created the proposal.
    pub author: u64,
    /// The fractionalized asset whose supply denominates voting power.
    pub asset: u64,
    /// Voting is not effective before this timepoint.
    pub start: u64,
    /// Voting ends at this timepoint; absent means open-ended.
    pub end: Option<u64>,
    /// The threshold policy, fixed at creation.
    pub threshold: Threshold,
    /// Digest of the stored opaque call.
    pub call_hash: Vec<u8>,
}

/// The little-endian bytes of a 64-bit value.
#[verifier::opaque]
pub open spec fn spec_u64_le(x: u64) -> Seq<u8> {
    seq![
        (x % 256) as u8,
        ((x / 256) % 256) as u8,
        ((x / 0x10000) % 256) as u8,
        ((x / 0x1000000) % 256) as u8,
        ((x / 0x100000000) % 256) as u8,
        ((x / 0x10000000000) % 256) as u8,
        ((x / 0x1000000000000) % 256) as u8,
        ((x / 0x100000000000000) % 256) as u8,
    ]
}

/// The little-endian bytes of a 128-bit value: low half, then high half.
#[verifier::opaque]
pub open spec fn spec_u128_le(x: u128) -> Seq<u8> {
    spec_u64_le((x % 0x10000000000000000) as u64) + spec_u64_le((x / 0x10000000000000000) as u64)
}

/// The encoding of the optional end timepoint: a presence tag, then the
/// timepoint when present.
#[verifier::opaque]
pub open spec fn spec_encode_end(end: Option<u64>) -> Seq<u8> {
    match end {
        None => seq![0u8],
        Some(e) => seq![1u8] + spec_u64_le(e),
    }
}

/// The encoding of a threshold policy: a variant tag, then its amount or
/// fraction.
#[verifier::opaque]
pub open spec fn spec_encode_threshold(th: Threshold) -> Seq<u8> {
    match th {
        Threshold::Absolute(a) => seq![0u8] + spec_u128_le(a),
        Threshold::Relative(f) => seq![1u8] + spec_u64_le(f),
        Threshold::RelativeExcept(f) => seq![2u8] + spec_u64_le(f),
    }
}

/// The encoded voting record: every field in a fixed order.
#[verifier::opaque]
pub open spec fn spec_encode_voting(
    author: u64,
    asset: u64,
    start: u64,
    end: Option<u64>,
    th: Threshold,
    call_hash: Seq<u8>,
) -> Seq<u8> {
    spec_u64_le(author) + spec_u64_le(asset) + spec_u64_le(start) + spec_encode_end(end)
        + spec_encode_threshold(th) + call_hash
}

/// The content-derived identifier of a voting record.
pub open spec fn spec_id_of(
    author: u64,
    asset: u64,
    start: u64,
    end: Option<u64>,
    th: Threshold,
    call_hash: Seq<u8>,
) -> Seq<u8> {
    id_digest_of(spec_encode_voting(author, asset, start, end, th, call_hash))
}

/// The content-derived identifier of an assembled voting record.
pub open spec fn spec_voting_id(v: Voting) -> Seq<u8> {
    spec_id_of(v.author, v.asset, v.start, v.end, v.threshold, v.call_hash@)
}

/// Whether voting on `v` is effective at time `now`: not before `start`,
/// and strictly before `end` when an end is set.
pub open spec fn spec_open_at(v: Voting, now: u64) -> bool {
    v.start <= now && match v.end {
        None => true,
        Some(e) => now < e,
    }
}

/// Appends the little-endian bytes of `x`.
fn push_u64(out: &mut Vec<u8>, x: u64)
    ensures
        final(out)@ == old(out)@ + spec_u64_le(x),
{
    out.push((x % 256) as u8);
    out.push(((x / 256) % 256) as u8);
    out.push(((x / 0x10000) % 256) as u8);
    out.push(((x / 0x1000000) % 256) as u8);
    out.push(((x / 0x100000000) % 256) as u8);
    out.push(((x / 0x10000000000) % 256) as u8);
    out.push(((x / 0x1000000000000) % 256) as u8);
    out.push(((x / 0x100000000000000) % 256) as u8);
    proof {
        reveal(spec_u64_le);
        assert(out@ =~= old(out)@ + spec_u64_le(x));
    }
}

/// Appends the little-endian bytes of `x`: low half, then high half.
fn push_u128(out: &mut Vec<u8>, x: u128)
    ensures
        final(out)@ == old(out)@ + spec_u128_le(x),
{
    proof {
        assert(x / 0x10000000000000000 < 0x10000000000000000) by (nonlinear_arith)
            requires
                x <= u128::MAX,
        {
        }
    }
    push_u64(out, (x % 0x10000000000000000) as u64);
    push_u64(out, (x / 0x10000000000000000) as u64);
    proof {
        reveal(spec_u128_le);
        assert(out@ =~= old(out)@ + spec_u128_le(x));
    }
}

impl Voting {
    /// Assembles a voting record; the call digest is computed from the
    /// opaque call bytes.
    pub fn assemble(
        author: u64,
        asset: u64,
        start: u64,
        end: Option<u64>,
        threshold: Threshold,
        call: &Vec<u8>,
    ) -> (v: Voting)
        ensures
            v.author == author,
            v.asset == asset,
            v.start == start,
            v.end == end,
            v.threshold == threshold,
            v.call_hash@ == call_digest_of(call@),
            v.call_hash@.len() == 32,
    {
        Voting { author, asset, start, end, threshold, call_hash: blake2_256_bytes(call) }
    }

    /// Encodes the record into its fixed byte layout.
    pub fn encode(&self) -> (r: Vec<u8>)
        ensures
            r@ == spec_encode_voting(
                self.author,
                self.asset,
                self.start,
                self.end,
                self.threshold,
                self.call_hash@,
            ),
    {
        let mut out: Vec<u8> = Vec::new();
        push_u64(&mut out, self.author);
        push_u64(&mut out, self.asset);
        push_u64(&mut out, self.start);
        match self.end {
            None => out.push(0u8),
            Some(e) => {
                out.push(1u8);
                push_u64(&mut out, e);
            },
        }
        match self.threshold {
            Threshold::Absolute(a) => {
                out.push(0u8);
                push_u128(&mut out, a);
            },
            Threshold::Relative(f) => {
                out.push(1u8);
                push_u64(&mut out, f);
            },
            Threshold::RelativeExcept(f) => {
                out.push(2u8);
                push_u64(&mut out, f);
            },
        }
        let mut i: usize = 0;
        let ghost before_hash = out@;
        while i < self.call_hash.len()
            invariant
                i <= self.call_hash.len(),
                out@ == before_hash + self.call_hash@.subrange(0, i as int),
            decreases self.call_hash.len() - i,
        {
            out.push(self.call_hash[i]);
            proof {
                assert(out@ =~= before_hash + self.call_hash@.subrange(0, i + 1 as int));
            }
            i += 1;
        }
        proof {
            reveal(spec_encode_end);
            reveal(spec_encode_threshold);
            reveal(spec_encode_voting);
            assert(self.call_hash@.subrange(0, self.call_hash@.len() as int) =~= self.call_hash@);
            assert(out@ =~= spec_encode_voting(
                self.author,
                self.asset,
                self.start,
                self.end,
                self.threshold,
                self.call_hash@,
            ));
        }
        out
    }

    /// Derives the content-derived identifier of this record.
    pub fn derive_id(&self) -> (r: Vec<u8>)
        ensures
            r@ == spec_voting_id(*self),
            r@.len() == 32,
    {
        let enc = self.encode();
        twox_256_bytes(&enc)
    }

    /// Returns a record holding the same values as this one.
    pub fn duplicate(&self) -> (r: Voting)
        ensures
            r.author == self.author,
            r.asset == self.asset,
            r.start == self.start,
            r.end == self.end,
            r.threshold == self.threshold,
            r.call_hash@ == self.call_hash@,
    {
        Voting {
            author: self.author,
            asset: self.asset,
            start: self.start,
            end: self.end,
            threshold: self.threshold,
            call_hash: crate::bytes::copy_bytes(&self.call_hash),
        }
    }

    /// Decides [`spec_open_at`] at run time.
    pub fn is_open_at(&self, now: u64) -> (r: bool)
        ensures
            r == spec_open_at(*self, now),
    {
        if now < self.start {
            return false;
        }
        match self.end {
            None => true,
            Some(e) => now < e,
        }
    }
}

} // verus!
