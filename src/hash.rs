//! The wide content hash: SHAKE256, squeezed to 32 bytes.
use tiny_keccak::{Hasher, Xof};
use vstd::prelude::*;

verus! {

/// The first 32 bytes that SHAKE256 squeezes out of `b`.
pub uninterp spec fn shake256_of(b: Seq<u8>) -> Seq<u8>;

/// Relies on tiny_keccak's `Shake::v256`, `update` and `squeeze`: the 32
/// bytes written depend on the input bytes alone.
#[verifier::external_body]
pub(crate) fn shake256(b: &[u8]) -> (r: [u8; 32])
    ensures
        r@ == shake256_of(b@),
{
    let mut hasher = tiny_keccak::Shake::v256();
    hasher.update(b);
    let mut res = [0u8; 32];
    hasher.squeeze(&mut res);
    res
}

} // verus!
