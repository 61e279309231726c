//! The content digests the engine is built on.
//!
//! The engine addresses stored calls by a Blake2b-256 digest of their bytes
//! and derives each voting's identifier from a XxHash-256 digest of the
//! encoded voting record. Both digests are pure functions of their input
//! bytes; the engine relies on nothing else about them, so each is named by
//! an uninterpreted function and computed by the hashing crate.

use vstd::prelude::*;

verus! {

/// The Blake2b-256 digest of a byte string, as computed by
/// `sp_crypto_hashing::blake2_256`: a function of the bytes alone.
pub uninterp spec fn call_digest_of(data: Seq<u8>) -> Seq<u8>;

/// The XxHash-256 digest of a byte string, as computed by
/// `sp_crypto_hashing::twox_256`: a function of the bytes alone.
pub uninterp spec fn id_digest_of(data: Seq<u8>) -> Seq<u8>;

/// Relies on `sp_crypto_hashing::blake2_256` (re-exported by
/// `sp_core_hashing`): a 32-byte Blake2b digest of the input bytes.
#[verifier::external_body]
pub(crate) fn blake2_256_bytes(data: &Vec<u8>) -> (r: Vec<u8>)
    ensures
        r@ == call_digest_of(data@),
        r@.len() == 32,
{
    sp_crypto_hashing::blake2_256(data.as_slice()).to_vec()
}

/// Relies on `sp_crypto_hashing::twox_256` (re-exported by
/// `sp_core_hashing`): a 32-byte XxHash-based digest of the input bytes.
#[verifier::external_body]
pub(crate) fn twox_256_bytes(data: &Vec<u8>) -> (r: Vec<u8>)
    ensures
        r@ == id_digest_of(data@),
        r@.len() == 32,
{
    sp_crypto_hashing::twox_256(data.as_slice()).to_vec()
}

} // verus!
