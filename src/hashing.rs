//! SHA-256, as risc0_zkvm provides it, and the double hash that identifies a
//! header.
use vstd::prelude::*;

use risc0_zkvm::sha::{Impl, Sha256};

verus! {

/// The SHA-256 digest of a byte string.
pub uninterp spec fn sha256_of(data: Seq<u8>) -> Seq<u8>;

/// Relies on `risc0_zkvm::sha::Impl::hash_bytes` (`Sha256` trait): the
/// FIPS 180-4 SHA-256 digest of the bytes, 32 bytes that depend on the input
/// alone.
#[verifier::external_body]
fn sha256(data: &[u8]) -> (r: [u8; 32])
    ensures
        r@ == sha256_of(data@),
{
    let digest = <Impl as Sha256>::hash_bytes(data);
    (*digest).into()
}

/// SHA-256 applied twice, the second time over the raw 32 digest bytes of the
/// first.
pub open spec fn double_hash(data: Seq<u8>) -> Seq<u8> {
    sha256_of(sha256_of(data))
}

/// The double SHA-256 hash of a byte string.
pub fn double_sha256(data: &[u8]) -> (r: [u8; 32])
    ensures
        r@ == double_hash(data@),
{
    let first = sha256(data);
    sha256(&first)
}

} // verus!
