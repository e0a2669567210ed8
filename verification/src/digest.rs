//! Content identity: a resource is addressed by the 20-byte SHA-1 digest of
//! its bytes, and no blob is admitted into any cache tier unless its digest
//! equals its address.

use vstd::prelude::*;
use sha1::Digest;
use sha1::Sha1;

verus! {

broadcast use vstd::array::group_array_axioms;

/// The 20-byte SHA-1 digest of a byte string: a function of the bytes alone.
pub uninterp spec fn digest_of(data: Seq<u8>) -> Seq<u8>;

/// Relies on Sha1::digest of the sha1 crate (the Digest trait's one-shot
/// form): the 20-byte SHA-1 digest of the bytes, a pure function of the
/// bytes alone.
#[verifier::external_body]
fn sha1_digest(data: &[u8]) -> (r: [u8; 20])
    ensures
        r@ == digest_of(data@),
{
    Sha1::digest(data).into()
}

/// Byte-for-byte equality of two 20-byte hashes.
pub fn hash_eq(a: &[u8; 20], b: &[u8; 20]) -> (r: bool)
    ensures
        r == (a@ == b@),
{
    let mut i: usize = 0;
    while i < 20
        invariant
            i <= 20,
            forall|j: int| 0 <= j < i ==> a@[j] == b@[j],
        decreases 20 - i,
    {
        if a[i] != b[i] {
            assert(a@[i as int] != b@[i as int]);
            return false;
        }
        i += 1;
    }
    assert(a@ =~= b@);
    true
}

/// Whether the bytes digest to the given address. This is the integrity check
/// every cache tier performs before admitting a blob.
pub fn blob_matches(hash: &[u8; 20], bytes: &Vec<u8>) -> (r: bool)
    ensures
        r == (digest_of(bytes@) == hash@),
{
    let d = sha1_digest(bytes.as_slice());
    hash_eq(&d, hash)
}

} // verus!
