//! The narrow interface to the external dependency extractor: what it makes
//! of a blob, and the selection of the content-hash-typed references — the
//! only ones the resolver traverses — from its descriptor list.

use vstd::prelude::*;

verus! {

/// A typed reference discovered inside a structured binary resource.
#[derive(Clone, Copy, Debug, PartialEq, Eq)]
pub enum ResrcDescriptor {
    /// A content-hash reference: a dependency the resolver traverses.
    Sha1([u8; 20]),
    /// An opaque numeric reference: not content-addressed, not traversed.
    Guid(u32),
}

/// What the external dependency extractor made of a blob.
pub enum ResrcClass {
    /// A structured binary resource, with its ordered reference descriptors.
    Binary(Vec<ResrcDescriptor>),
    /// Recognized, but not a structured binary resource: a leaf.
    Other,
    /// The extractor could not classify the blob: treated as a leaf, and
    /// counted as a non-fatal extraction failure.
    Unparsed,
}

/// The content hashes among a descriptor list, in order.
pub open spec fn spec_hash_children(descs: Seq<ResrcDescriptor>) -> Seq<[u8; 20]>
    decreases descs.len(),
{
    if descs.len() == 0 {
        seq![]
    } else {
        spec_hash_children(descs.drop_last()) + (match descs.last() {
            ResrcDescriptor::Sha1(h) => seq![h],
            ResrcDescriptor::Guid(_) => seq![],
        })
    }
}

/// Select the content-hash-typed references from a descriptor list; opaque
/// references are not dependencies and are dropped.
pub fn hash_children(descs: &Vec<ResrcDescriptor>) -> (r: Vec<[u8; 20]>)
    ensures
        r@ == spec_hash_children(descs@),
{
    let mut r: Vec<[u8; 20]> = Vec::new();
    let mut i: usize = 0;
    while i < descs.len()
        invariant
            i <= descs@.len(),
            r@ == spec_hash_children(descs@.subrange(0, i as int)),
        decreases descs@.len() - i,
    {
        proof {
            assert(descs@.subrange(0, i + 1).drop_last() =~= descs@.subrange(0, i as int));
            assert(descs@.subrange(0, i + 1).last() == descs@[i as int]);
        }
        match descs[i] {
            ResrcDescriptor::Sha1(h) => {
                r.push(h);
            },
            ResrcDescriptor::Guid(_) => {},
        }
        proof {
            assert(r@ =~= spec_hash_children(descs@.subrange(0, i + 1)));
        }
        i += 1;
    }
    proof {
        assert(descs@.subrange(0, descs@.len() as int) =~= descs@);
    }
    r
}

/// The 20-byte chunks of a byte string, each a content hash; a trailing
/// partial chunk is not a hash and is dropped.
pub open spec fn spec_hash_chunks(b: Seq<u8>) -> Seq<Seq<u8>> {
    Seq::new(b.len() / 20, |k: int| b.subrange(20 * k, 20 * k + 20))
}

/// Split a byte string into the content hashes it concatenates, dropping any
/// trailing partial chunk. A user's planets column is such a string.
pub fn hashes_in_blob(blob: &Vec<u8>) -> (r: Vec<[u8; 20]>)
    ensures
        r@.len() == blob@.len() / 20,
        forall|k: int| 0 <= k < r@.len() ==> #[trigger] r@[k]@ == spec_hash_chunks(blob@)[k],
{
    let count = blob.len() / 20;
    let mut r: Vec<[u8; 20]> = Vec::new();
    let mut k: usize = 0;
    while k < count
        invariant
            k <= count,
            count == blob@.len() / 20,
            blob@.len() <= usize::MAX,
            r@.len() == k,
            forall|j: int| 0 <= j < k ==> #[trigger] r@[j]@ == blob@.subrange(20 * j, 20 * j + 20),
        decreases count - k,
    {
        let mut arr: [u8; 20] = [0; 20];
        let mut i: usize = 0;
        proof {
            assert(20 * (k as int) + 20 <= blob@.len()) by (nonlinear_arith)
                requires
                    k < count,
                    count == blob@.len() / 20,
            ;
        }
        while i < 20
            invariant
                i <= 20,
                k < count,
                count == blob@.len() / 20,
                blob@.len() <= usize::MAX,
                20 * (k as int) + 20 <= blob@.len(),
                forall|j: int| 0 <= j < i ==> arr@[j] == blob@[20 * (k as int) + j],
            decreases 20 - i,
        {
            arr[i] = blob[20 * k + i];
            i += 1;
        }
        proof {
            assert(arr@ =~= blob@.subrange(20 * (k as int), 20 * (k as int) + 20));
        }
        r.push(arr);
        k += 1;
    }
    r
}

} // verus!
