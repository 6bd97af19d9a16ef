//! HASH160, as the `bitcoin` crate computes it.

use vstd::prelude::*;

verus! {

/// A 20-byte hash.
pub type Hash160 = [u8; 20];

/// The HASH160 of a byte string.
pub uninterp spec fn hash160_of(data: Seq<u8>) -> [u8; 20];

/// The HASH160 of a byte string, as a sequence.
pub open spec fn hash160_spec(data: Seq<u8>) -> Seq<u8> {
    hash160_of(data)@
}

/// Calls `bitcoin::hashes::hash160::Hash::hash`. The contract claims that the
/// digest is a function of the data alone, which [`hash160_of`] names.
#[verifier::external_body]
pub(crate) fn hash160(data: &[u8]) -> (h: Hash160)
    ensures
        h == hash160_of(data@),
{
    let h: bitcoin::hashes::hash160::Hash = bitcoin::hashes::Hash::hash(data);
    bitcoin::hashes::Hash::to_byte_array(h)
}

/// Whether two hashes are the same bytes.
pub fn same_hash(a: &Hash160, b: &Hash160) -> (same: bool)
    ensures
        same == (a@ == b@),
{
    for i in 0..20usize
        invariant
            forall|j: int| 0 <= j < i ==> a@[j] == b@[j],
    {
        if a[i] != b[i] {
            return false;
        }
    }
    assert(a@ =~= b@);
    true
}

} // verus!
