//! Key material drawn from the `rand` crate's standard generator.

use rand::{RngCore, SeedableRng};
use vstd::prelude::*;

verus! {

/// The first `n` bytes that the standard generator gives for a seed.
pub uninterp spec fn seeded_stream(seed: Seq<u8>, n: nat) -> Seq<u8>;

/// Calls `rand::rngs::StdRng::from_seed` and, on the fresh generator,
/// `fill_bytes` over `n` bytes. The contract claims that the `n` bytes are a
/// function of the seed and of `n`, which [`seeded_stream`] names.
#[verifier::external_body]
pub(crate) fn seeded_bytes(seed: [u8; 32], n: usize) -> (bytes: Vec<u8>)
    ensures
        bytes@ == seeded_stream(seed@, n as nat),
        bytes@.len() == n,
{
    let mut bytes: Vec<u8> = vec![0u8; n];
    rand::rngs::StdRng::from_seed(seed).fill_bytes(&mut bytes);
    bytes
}

} // verus!
