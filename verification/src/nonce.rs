//! The nonce under which a private listing is sealed.

use vstd::prelude::*;
use crate::bytes::bytes_slice;
use crate::name::NetworkName;

verus! {

/// The length of a nonce, in bytes.
pub const NONCE_LEN: usize = 24;

/// The SHA-256 hash of a byte string.
pub uninterp spec fn sha256(bytes: Seq<u8>) -> Seq<u8>;

/// Hashes a byte string with `sodiumoxide::crypto::hash::sha256::hash`.
/// The result is a function of the bytes alone and is 32 bytes long.
#[verifier::external_body]
pub(crate) fn sha256_of(bytes: &Vec<u8>) -> (r: Vec<u8>)
    ensures
        r@ == sha256(bytes@),
        r@.len() == 32,
{
    sodiumoxide::crypto::hash::sha256::hash(bytes).0.to_vec()
}

/// The nonce that goes with a listing's name: the front of the hash of the
/// name. One name gives one nonce, so that what was sealed in one session
/// opens in another.
pub open spec fn nonce_of(name: Seq<u8>) -> Seq<u8> {
    sha256(name).subrange(0, NONCE_LEN as int)
}

/// The nonce that goes with a listing's name.
pub fn generate_nonce(name: &NetworkName) -> (r: Vec<u8>)
    ensures
        r@ == nonce_of(name@),
        r@.len() == NONCE_LEN,
{
    let digest = sha256_of(&name.bytes);
    bytes_slice(&digest, 0, NONCE_LEN)
}

} // verus!
