//! Commitments, as far as the message accounting needs them.
//!
//! Committing is the business of the commitment scheme; here a commitment is a
//! value that is carried along and whose serialized size is known.
use ark_bls12_381::G1Affine;
use ark_ec::AffineRepr;
use ark_serialize::CanonicalSerialize;
use vstd::prelude::*;

verus! {

/// A commitment to a vector of scalars: a point of the group G1, held by its
/// affine coordinates, each as six little-endian 64-bit limbs, and a flag for
/// the point at infinity.
#[derive(Clone, Copy, Debug, PartialEq, Eq)]
pub struct Commitment {
    pub x: [u64; 6],
    pub y: [u64; 6],
    pub infinity: bool,
}

/// The number of bytes of a serialized commitment.
pub open spec fn commitment_size() -> nat {
    48
}

impl Commitment {
    /// The number of bytes that the commitment takes once serialized.
    pub fn size_in_bytes(&self) -> (n: usize)
        ensures
            n == commitment_size(),
    {
        g1_compressed_size()
    }
}

/// Asks `ark-serialize` for the size of the compressed form of a G1 point of
/// BLS12-381, by `CanonicalSerialize::compressed_size` on the point at
/// infinity. The contract claims that it is 48 bytes, which is what the G1
/// configuration of `ark-bls12-381` returns for every point.
#[verifier::external_body]
fn g1_compressed_size() -> (n: usize)
    ensures
        n == 48,
{
    G1Affine::zero().compressed_size()
}

} // verus!
