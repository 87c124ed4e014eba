//! The two cryptographic hash functions the ledger relies on.
//!
//! Neither algorithm is verified here. Each is given a name in specifications,
//! and the function that computes it is trusted to return the named value.

use ripemd::Ripemd160;
use sha2::{Digest, Sha256};
use vstd::prelude::*;

verus! {

/// Length in bytes of a RIPEMD-160 digest.
pub const RIPEMD160_LEN: usize = 20;

/// The SHA-256 digest of `data`.
pub uninterp spec fn sha256_digest(data: Seq<u8>) -> Seq<u8>;

/// The RIPEMD-160 digest of `data`.
pub uninterp spec fn ripemd160_digest(data: Seq<u8>) -> Seq<u8>;

/// Hashes `data` with `sha2::Sha256` (`Digest::digest`).
///
/// Trusted: the bytes returned are the SHA-256 digest of `data`, a function of
/// the input bytes alone.
#[verifier::external_body]
pub(crate) fn sha256(data: &[u8]) -> (out: [u8; 32])
    ensures
        out@ == sha256_digest(data@),
{
    Sha256::digest(data).into()
}

/// Hashes `data` with `ripemd::Ripemd160` (`Digest::digest`).
///
/// Trusted: the bytes returned are the RIPEMD-160 digest of `data`, a function
/// of the input bytes alone, and there are twenty of them.
#[verifier::external_body]
pub(crate) fn ripemd160(data: &[u8]) -> (out: Vec<u8>)
    ensures
        out@ == ripemd160_digest(data@),
        out@.len() == RIPEMD160_LEN,
{
    Ripemd160::digest(data).to_vec()
}

} // verus!
