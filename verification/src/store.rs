//! The two-tier content store: the per-run memory cache, the claim ("seen")
//! set that gives at-most-once fetch semantics, and the verification gates
//! through which every blob must pass — from the disk tier or the archive
//! tier — before it is recorded or fit to persist.

use vstd::prelude::*;
use crate::digest::blob_matches;
use crate::digest::digest_of;
use crate::digest::hash_eq;
use crate::paths::is_location_for;
use crate::paths::resolve_archive_location;
use crate::paths::ArchiveLocation;

verus! {

broadcast use vstd::array::group_array_axioms;

/// The cache tier a blob was read from when its digest was checked.
#[derive(Clone, Copy, Debug, PartialEq, Eq, Structural)]
pub enum CacheTier {
    Disk,
    Archive,
}

/// A fatal resolution failure: any one of these aborts the whole run. Each
/// carries the hash being resolved, so the failing stage and resource are
/// both identified.
#[derive(Clone, Copy, Debug, PartialEq, Eq)]
pub enum FetchError {
    /// Filesystem read failure while extracting from an archive.
    Io { hash: [u8; 20] },
    /// Archive file missing or not a valid container at its expected path.
    ArchiveOpen { hash: [u8; 20] },
    /// Archive opened, but the expected entry is absent.
    MissingEntry { hash: [u8; 20] },
    /// Bytes were obtained but do not digest to the requested identity.
    Corruption { hash: [u8; 20], tier: CacheTier },
}

/// Map from content hash to verified bytes, stored as an association list
/// with distinct keys.
pub struct ResourceMap {
    entries: Vec<([u8; 20], Vec<u8>)>,
}

/// The mathematical map an entry list denotes: later entries would win, but
/// a well-formed list has distinct keys.
pub closed spec fn map_of(entries: Seq<([u8; 20], Vec<u8>)>) -> Map<Seq<u8>, Seq<u8>>
    decreases entries.len(),
{
    if entries.len() == 0 {
        Map::empty()
    } else {
        map_of(entries.drop_last()).insert(entries.last().0@, entries.last().1@)
    }
}

proof fn lemma_map_of_index_to_dom(entries: Seq<([u8; 20], Vec<u8>)>, i: int)
    requires
        0 <= i < entries.len(),
    ensures
        map_of(entries).dom().contains(entries[i].0@),
    decreases entries.len(),
{
    if i < entries.len() - 1 {
        assert(entries.drop_last()[i] == entries[i]);
        lemma_map_of_index_to_dom(entries.drop_last(), i);
    }
}

proof fn lemma_map_of_dom_to_index(entries: Seq<([u8; 20], Vec<u8>)>, k: Seq<u8>)
    requires
        map_of(entries).dom().contains(k),
    ensures
        exists|i: int| 0 <= i < entries.len() && #[trigger] entries[i].0@ == k,
    decreases entries.len(),
{
    if entries.last().0@ == k {
        assert(entries[entries.len() - 1].0@ == k);
    } else {
        lemma_map_of_dom_to_index(entries.drop_last(), k);
        let i = choose|i: int|
            0 <= i < entries.drop_last().len() && #[trigger] entries.drop_last()[i].0@ == k;
        assert(entries[i].0@ == k);
    }
}

proof fn lemma_map_of_index(entries: Seq<([u8; 20], Vec<u8>)>, i: int)
    requires
        0 <= i < entries.len(),
        forall|j: int| i < j < entries.len() ==> #[trigger] entries[j].0@ != entries[i].0@,
    ensures
        map_of(entries).dom().contains(entries[i].0@),
        map_of(entries)[entries[i].0@] == entries[i].1@,
    decreases entries.len(),
{
    if i < entries.len() - 1 {
        assert(entries.drop_last()[i] == entries[i]);
        lemma_map_of_index(entries.drop_last(), i);
    }
}

proof fn lemma_map_of_len(entries: Seq<([u8; 20], Vec<u8>)>)
    requires
        forall|i: int, j: int|
            0 <= i < j < entries.len() ==> #[trigger] entries[i].0@ != #[trigger] entries[j].0@,
    ensures
        map_of(entries).dom().finite(),
        map_of(entries).dom().len() == entries.len(),
    decreases entries.len(),
{
    if entries.len() > 0 {
        lemma_map_of_len(entries.drop_last());
        if map_of(entries.drop_last()).dom().contains(entries.last().0@) {
            lemma_map_of_dom_to_index(entries.drop_last(), entries.last().0@);
            let i = choose|i: int|
                0 <= i < entries.drop_last().len() && #[trigger] entries.drop_last()[i].0@
                    == entries.last().0@;
            assert(entries[i].0@ == entries[entries.len() - 1].0@);
            assert(false);
        }
    }
}

impl ResourceMap {
    /// The mapping from content hash to blob bytes this value holds.
    pub closed spec fn map(&self) -> Map<Seq<u8>, Seq<u8>> {
        map_of(self.entries@)
    }

    /// Well-formed: keys are distinct.
    pub closed spec fn inv(&self) -> bool {
        forall|i: int, j: int|
            0 <= i < j < self.entries@.len() ==> #[trigger] self.entries@[i].0@ != #[trigger] self.entries@[j].0@
    }

    pub fn new() -> (r: Self)
        ensures
            r.inv(),
            r.map() == Map::<Seq<u8>, Seq<u8>>::empty(),
    {
        ResourceMap { entries: Vec::new() }
    }

    /// Number of distinct hashes held.
    pub fn len(&self) -> (n: usize)
        requires
            self.inv(),
        ensures
            n == self.map().dom().len(),
    {
        proof {
            lemma_map_of_len(self.entries@);
        }
        self.entries.len()
    }

    /// Position of a key in the entry list, if present.
    fn find(&self, hash: &[u8; 20]) -> (r: Option<usize>)
        ensures
            match r {
                Some(i) => i < self.entries@.len() && self.entries@[i as int].0@ == hash@,
                None => forall|i: int|
                    0 <= i < self.entries@.len() ==> #[trigger] self.entries@[i].0@ != hash@,
            },
    {
        let mut i: usize = 0;
        while i < self.entries.len()
            invariant
                i <= self.entries@.len(),
                forall|j: int| 0 <= j < i ==> #[trigger] self.entries@[j].0@ != hash@,
            decreases self.entries@.len() - i,
        {
            if hash_eq(&self.entries[i].0, hash) {
                return Some(i);
            }
            i += 1;
        }
        None
    }

    pub fn contains_key(&self, hash: &[u8; 20]) -> (r: bool)
        ensures
            r == self.map().dom().contains(hash@),
    {
        match self.find(hash) {
            Some(i) => {
                proof {
                    lemma_map_of_index_to_dom(self.entries@, i as int);
                }
                true
            },
            None => {
                proof {
                    if self.map().dom().contains(hash@) {
                        lemma_map_of_dom_to_index(self.entries@, hash@);
                    }
                }
                false
            },
        }
    }

    /// The bytes recorded for a hash, if any.
    pub fn get(&self, hash: &[u8; 20]) -> (r: Option<&Vec<u8>>)
        requires
            self.inv(),
        ensures
            match r {
                Some(bytes) => self.map().dom().contains(hash@) && bytes@ == self.map()[hash@],
                None => !self.map().dom().contains(hash@),
            },
    {
        match self.find(hash) {
            Some(i) => {
                proof {
                    lemma_map_of_index(self.entries@, i as int);
                }
                Some(&self.entries[i].1)
            },
            None => {
                proof {
                    if self.map().dom().contains(hash@) {
                        lemma_map_of_dom_to_index(self.entries@, hash@);
                    }
                }
                None
            },
        }
    }

    /// The hashes held, in insertion order.
    pub fn hashes(&self) -> (r: Vec<[u8; 20]>)
        requires
            self.inv(),
        ensures
            r@.len() == self.map().dom().len(),
            forall|i: int| 0 <= i < r@.len() ==> self.map().dom().contains(#[trigger] r@[i]@),
            forall|k: Seq<u8>| #[trigger]
                self.map().dom().contains(k) ==> exists|i: int|
                    0 <= i < r@.len() && #[trigger] r@[i]@ == k,
            forall|i: int, j: int| 0 <= i < j < r@.len() ==> r@[i]@ != r@[j]@,
    {
        proof {
            lemma_map_of_len(self.entries@);
        }
        let mut r: Vec<[u8; 20]> = Vec::new();
        let mut i: usize = 0;
        while i < self.entries.len()
            invariant
                i <= self.entries@.len(),
                r@.len() == i,
                forall|j: int| 0 <= j < i ==> #[trigger] r@[j] == self.entries@[j].0,
            decreases self.entries@.len() - i,
        {
            r.push(self.entries[i].0);
            i += 1;
        }
        proof {
            assert forall|i: int| 0 <= i < r@.len() implies self.map().dom().contains(
                #[trigger] r@[i]@,
            ) by {
                lemma_map_of_index_to_dom(self.entries@, i);
            }
            assert forall|k: Seq<u8>| #[trigger]
                self.map().dom().contains(k) implies exists|i: int|
                0 <= i < r@.len() && #[trigger] r@[i]@ == k by {
                lemma_map_of_dom_to_index(self.entries@, k);
                let i = choose|i: int|
                    0 <= i < self.entries@.len() && #[trigger] self.entries@[i].0@ == k;
                assert(r@[i]@ == k);
            }
        }
        r
    }

    /// Record the bytes for a hash not yet held.
    pub fn insert(&mut self, hash: [u8; 20], bytes: Vec<u8>)
        requires
            old(self).inv(),
            !old(self).map().dom().contains(hash@),
        ensures
            final(self).inv(),
            final(self).map() == old(self).map().insert(hash@, bytes@),
    {
        proof {
            assert forall|i: int| 0 <= i < self.entries@.len() implies #[trigger] self.entries@[i].0@
                != hash@ by {
                lemma_map_of_index_to_dom(self.entries@, i);
            }
        }
        let ghost pre = self.entries@;
        self.entries.push((hash, bytes));
        proof {
            assert(self.entries@.drop_last() =~= pre);
        }
    }
}

/// Every blob in the map digests to its address.
pub open spec fn blobs_verified(m: Map<Seq<u8>, Seq<u8>>) -> bool {
    forall|k: Seq<u8>| #[trigger] m.dom().contains(k) ==> digest_of(m[k]) == k
}

/// The final mapping for the whole reachable set, with a count of resources
/// obtained and a count of non-fatal dependency-extraction failures.
pub struct DownloadResult {
    pub resources: ResourceMap,
    pub success_count: usize,
    pub error_count: usize,
}

/// What the disk tier found when the caller probed the cache file for a hash.
#[derive(Debug)]
pub enum DiskProbe {
    /// The cache file exists and holds these bytes.
    Found(Vec<u8>),
    /// No cache file exists for the hash.
    Absent,
}

/// What the caller must do next after the disk tier was consulted.
#[derive(Debug)]
pub enum DiskStep {
    /// The blob came from the disk cache and is recorded; extract its
    /// dependencies next.
    Cached,
    /// Not on disk: fetch from the archive at this location.
    FetchFromArchive(ArchiveLocation),
}

/// The outcome of the caller's archive work for a hash.
#[derive(Debug)]
pub enum ArchiveOutcome {
    /// The archive file is missing or is not a valid container.
    OpenFailed,
    /// The archive opened, but the expected entry is absent.
    EntryMissing,
    /// Reading the entry's bytes failed.
    ReadFailed,
    /// The entry's bytes, not yet verified.
    Bytes(Vec<u8>),
}

/// One resolver run's shared store: the claim set and the memory cache. Every
/// blob recorded here has passed the digest check against its address.
pub struct ContentStore {
    seen: Vec<[u8; 20]>,
    mem: ResourceMap,
}

impl ContentStore {
    /// Hashes some task has claimed responsibility for fetching.
    pub closed spec fn seen_set(&self) -> Set<Seq<u8>> {
        Set::new(
            |k: Seq<u8>| exists|i: int| 0 <= i < self.seen@.len() && #[trigger] self.seen@[i]@ == k,
        )
    }

    /// The memory cache: hash to verified bytes.
    pub closed spec fn blobs(&self) -> Map<Seq<u8>, Seq<u8>> {
        self.mem.map()
    }

    /// Well-formed: the cache is keyed by claimed hashes only, and every
    /// cached blob digests to its address.
    pub closed spec fn inv(&self) -> bool {
        &&& self.mem.inv()
        &&& self.blobs().dom().subset_of(self.seen_set())
        &&& blobs_verified(self.blobs())
    }

    pub fn new() -> (s: Self)
        ensures
            s.inv(),
            s.seen_set() == Set::<Seq<u8>>::empty(),
            s.blobs() == Map::<Seq<u8>, Seq<u8>>::empty(),
    {
        let s = ContentStore { seen: Vec::new(), mem: ResourceMap::new() };
        proof {
            assert(s.seen_set() =~= Set::<Seq<u8>>::empty());
        }
        s
    }

    /// The dedup gate: atomically check and insert a hash into the seen set.
    /// Returns true if and only if the hash was not yet claimed; the caller
    /// that receives true owns the fetch, every other caller must return no
    /// children and perform no work.
    pub fn try_claim(&mut self, hash: &[u8; 20]) -> (claimed: bool)
        requires
            old(self).inv(),
        ensures
            final(self).inv(),
            claimed == !old(self).seen_set().contains(hash@),
            final(self).seen_set() == old(self).seen_set().insert(hash@),
            final(self).blobs() == old(self).blobs(),
    {
        let mut i: usize = 0;
        while i < self.seen.len()
            invariant
                old(self).inv(),
                *self == *old(self),
                i <= self.seen@.len(),
                forall|j: int| 0 <= j < i ==> #[trigger] self.seen@[j]@ != hash@,
            decreases self.seen@.len() - i,
        {
            let e = self.seen[i];
            if hash_eq(&e, hash) {
                proof {
                    assert(self.seen_set().contains(hash@));
                    assert(self.seen_set() =~= self.seen_set().insert(hash@));
                }
                return false;
            }
            i += 1;
        }
        let ghost pre = *self;
        self.seen.push(*hash);
        proof {
            assert forall|k: Seq<u8>| #[trigger]
                self.seen_set().contains(k)
                    implies pre.seen_set().insert(hash@).contains(k) by {
                let i = choose|i: int| 0 <= i < self.seen@.len() && #[trigger] self.seen@[i]@ == k;
                if i < self.seen@.len() - 1 {
                    assert(pre.seen@[i]@ == k);
                }
            }
            assert forall|k: Seq<u8>| pre.seen_set().insert(hash@).contains(k)
                implies #[trigger] self.seen_set().contains(k) by {
                if k == hash@ {
                    assert(self.seen@[self.seen@.len() - 1]@ == k);
                } else {
                    let i = choose|i: int| 0 <= i < pre.seen@.len() && #[trigger] pre.seen@[i]@ == k;
                    assert(self.seen@[i]@ == k);
                }
            }
            assert(self.seen_set() =~= pre.seen_set().insert(hash@));
        }
        true
    }

    /// The disk tier: handed what the caller's probe of the disk cache found
    /// for a claimed hash, verify and record found bytes — a cache file is
    /// never trusted blindly — or direct the caller to the archive location.
    pub fn on_disk_probe(&mut self, hash: &[u8; 20], probe: DiskProbe) -> (r: Result<
        DiskStep,
        FetchError,
    >)
        requires
            old(self).inv(),
            old(self).seen_set().contains(hash@),
            !old(self).blobs().dom().contains(hash@),
        ensures
            final(self).inv(),
            final(self).seen_set() == old(self).seen_set(),
            match probe {
                DiskProbe::Found(bytes) => {
                    if digest_of(bytes@) == hash@ {
                        &&& r matches Ok(DiskStep::Cached)
                        &&& final(self).blobs() == old(self).blobs().insert(hash@, bytes@)
                    } else {
                        &&& r matches Err(FetchError::Corruption { hash: eh, tier }) && eh@
                            == hash@ && tier == CacheTier::Disk
                        &&& final(self).blobs() == old(self).blobs()
                    }
                },
                DiskProbe::Absent => {
                    &&& r matches Ok(DiskStep::FetchFromArchive(loc)) && is_location_for(
                        loc,
                        hash@,
                    )
                    &&& final(self).blobs() == old(self).blobs()
                },
            },
    {
        match probe {
            DiskProbe::Found(bytes) => {
                if blob_matches(hash, &bytes) {
                    self.mem.insert(*hash, bytes);
                    Ok(DiskStep::Cached)
                } else {
                    Err(FetchError::Corruption { hash: *hash, tier: CacheTier::Disk })
                }
            },
            DiskProbe::Absent => Ok(DiskStep::FetchFromArchive(resolve_archive_location(hash))),
        }
    }

    /// The archive tier: handed the outcome of the caller's archive work for
    /// a claimed hash, translate failures into fatal errors, and verify and
    /// record extracted bytes. The verified bytes are returned so the caller
    /// can persist them to the disk tier and extract dependencies; nothing is
    /// recorded or fit to persist unless the digest check passed.
    pub fn on_archive_outcome(&mut self, hash: &[u8; 20], outcome: ArchiveOutcome) -> (r: Result<
        Vec<u8>,
        FetchError,
    >)
        requires
            old(self).inv(),
            old(self).seen_set().contains(hash@),
            !old(self).blobs().dom().contains(hash@),
        ensures
            final(self).inv(),
            final(self).seen_set() == old(self).seen_set(),
            match outcome {
                ArchiveOutcome::OpenFailed => {
                    &&& r matches Err(FetchError::ArchiveOpen { hash: eh }) && eh@ == hash@
                    &&& final(self).blobs() == old(self).blobs()
                },
                ArchiveOutcome::EntryMissing => {
                    &&& r matches Err(FetchError::MissingEntry { hash: eh }) && eh@ == hash@
                    &&& final(self).blobs() == old(self).blobs()
                },
                ArchiveOutcome::ReadFailed => {
                    &&& r matches Err(FetchError::Io { hash: eh }) && eh@ == hash@
                    &&& final(self).blobs() == old(self).blobs()
                },
                ArchiveOutcome::Bytes(bytes) => {
                    if digest_of(bytes@) == hash@ {
                        &&& r matches Ok(rb) && rb@ == bytes@
                        &&& final(self).blobs() == old(self).blobs().insert(hash@, bytes@)
                    } else {
                        &&& r matches Err(FetchError::Corruption { hash: eh, tier }) && eh@
                            == hash@ && tier == CacheTier::Archive
                        &&& final(self).blobs() == old(self).blobs()
                    }
                },
            },
    {
        match outcome {
            ArchiveOutcome::OpenFailed => Err(FetchError::ArchiveOpen { hash: *hash }),
            ArchiveOutcome::EntryMissing => Err(FetchError::MissingEntry { hash: *hash }),
            ArchiveOutcome::ReadFailed => Err(FetchError::Io { hash: *hash }),
            ArchiveOutcome::Bytes(bytes) => {
                if blob_matches(hash, &bytes) {
                    let copy = copy_bytes(&bytes);
                    self.mem.insert(*hash, copy);
                    Ok(bytes)
                } else {
                    Err(FetchError::Corruption { hash: *hash, tier: CacheTier::Archive })
                }
            },
        }
    }

    /// Drain the memory cache into the run's result. The success count is the
    /// number of distinct hashes resolved; the error count is the number of
    /// non-fatal dependency-extraction failures the caller observed.
    pub fn into_result(self, extraction_failures: usize) -> (r: DownloadResult)
        requires
            self.inv(),
        ensures
            r.resources.inv(),
            r.resources.map() == self.blobs(),
            blobs_verified(r.resources.map()),
            r.success_count == self.blobs().dom().len(),
            r.error_count == extraction_failures,
    {
        let success_count = self.mem.len();
        DownloadResult { resources: self.mem, success_count, error_count: extraction_failures }
    }

    /// Integrity: every blob the store holds digests to its address. This is
    /// invariant over the store's whole life, whatever the tiers were handed.
    pub proof fn lemma_integrity(&self)
        requires
            self.inv(),
        ensures
            blobs_verified(self.blobs()),
    {
    }
}

/// One atomic check-and-insert on the seen set: `granted` exactly when the
/// hash was not yet present, and the hash is present afterwards.
pub open spec fn claim_step(
    pre: Set<Seq<u8>>,
    post: Set<Seq<u8>>,
    h: Seq<u8>,
    granted: bool,
) -> bool {
    granted == !pre.contains(h) && post == pre.insert(h)
}

/// The first claim for a hash not yet seen succeeds: together with
/// `lemma_at_most_once_claim`, exactly one claim per hash succeeds.
pub proof fn lemma_first_claim_succeeds(
    pre: Set<Seq<u8>>,
    post: Set<Seq<u8>>,
    h: Seq<u8>,
    granted: bool,
)
    requires
        claim_step(pre, post, h, granted),
        !pre.contains(h),
    ensures
        granted,
{
}

proof fn lemma_claim_chain_subset(
    pres: Seq<Set<Seq<u8>>>,
    posts: Seq<Set<Seq<u8>>>,
    grants: Seq<bool>,
    h: Seq<u8>,
    i: int,
    j: int,
)
    requires
        pres.len() == posts.len(),
        grants.len() == pres.len(),
        forall|k: int|
            0 <= k < pres.len() ==> claim_step(#[trigger] pres[k], posts[k], h, grants[k]),
        forall|k: int| 0 <= k < pres.len() - 1 ==> (#[trigger] posts[k]).subset_of(pres[k + 1]),
        0 <= i < j < pres.len(),
    ensures
        posts[i].subset_of(pres[j]),
    decreases j - i,
{
    if i + 1 < j {
        lemma_claim_chain_subset(pres, posts, grants, h, i + 1, j);
    }
}

/// At-most-once fetch: among any number of claim attempts for one hash
/// against one store — in any interleaving, so long as the seen set only
/// grows in between, which every store operation guarantees — at most one
/// attempt succeeds. That single claimant fetches the hash; the rest must
/// do no work for it and report an empty child list.
pub proof fn lemma_at_most_once_claim(
    pres: Seq<Set<Seq<u8>>>,
    posts: Seq<Set<Seq<u8>>>,
    grants: Seq<bool>,
    h: Seq<u8>,
    i: int,
    j: int,
)
    requires
        pres.len() == posts.len(),
        grants.len() == pres.len(),
        forall|k: int|
            0 <= k < pres.len() ==> claim_step(#[trigger] pres[k], posts[k], h, grants[k]),
        forall|k: int| 0 <= k < pres.len() - 1 ==> (#[trigger] posts[k]).subset_of(pres[k + 1]),
        0 <= i < j < pres.len(),
        grants[i],
    ensures
        !grants[j],
{
    lemma_claim_chain_subset(pres, posts, grants, h, i, j);
    assert(claim_step(pres[i], posts[i], h, grants[i]));
    assert(claim_step(pres[j], posts[j], h, grants[j]));
    assert(posts[i].contains(h));
    assert(pres[j].contains(h));
}

/// Copy a byte vector element by element.
fn copy_bytes(src: &Vec<u8>) -> (r: Vec<u8>)
    ensures
        r@ == src@,
{
    let mut r: Vec<u8> = Vec::new();
    let mut i: usize = 0;
    while i < src.len()
        invariant
            i <= src@.len(),
            r@ == src@.subrange(0, i as int),
        decreases src@.len() - i,
    {
        r.push(src[i]);
        proof {
            assert(r@ =~= src@.subrange(0, i + 1));
        }
        i += 1;
    }
    proof {
        assert(r@ =~= src@);
    }
    r
}

} // verus!
