//! Keyed hashing for the authorization index and URL records: a 16-byte
//! SHAKE128 digest read as a big-endian 128-bit integer.
use vstd::prelude::*;

use sha3::Shake128;
use sha3::digest::{ExtendableOutput, Update, XofReader};

use crate::codec::be128_of;
use crate::codec::read_u128_be;

verus! {

/// The 16-byte SHAKE128 digest of `data`: a pure function of the input
/// bytes alone. Its value is not characterized further here; contracts
/// speak of it only by this name.
pub uninterp spec fn shake128_digest16(data: Seq<u8>) -> Seq<u8>;

/// Relies on sha3's `Shake128` (absorb `data`, then read 16 bytes of
/// extendable output): the digest depends on the input bytes alone.
#[verifier::external_body]
fn shake128_16(data: &Vec<u8>) -> (r: [u8; 16])
    ensures
        r@ == shake128_digest16(data@),
{
    let mut hasher = Shake128::default();
    hasher.update(data.as_slice());
    let mut reader = hasher.finalize_xof();
    let mut out = [0u8; 16];
    reader.read(&mut out);
    out
}

/// The SHAKE128 digest of `data` read as one big-endian 128-bit value, the
/// form in which hash keys are stored.
pub open spec fn shake128_u128(data: Seq<u8>) -> u128 {
    be128_of(shake128_digest16(data))
}

/// Hashes arbitrary bytes down to the 128-bit key space of the index.
pub fn bytes_hash(data: &Vec<u8>) -> (r: u128)
    ensures
        r == shake128_u128(data@),
{
    let d = shake128_16(data);
    read_u128_be(&d)
}

} // verus!
