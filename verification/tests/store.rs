//! The content store: integrity checks at both tiers, the dedup gate, and
//! failure containment.

use lbp_archive_dl::digest::blob_matches;
use lbp_archive_dl::store::ArchiveOutcome;
use lbp_archive_dl::store::CacheTier;
use lbp_archive_dl::store::ContentStore;
use lbp_archive_dl::store::DiskProbe;
use lbp_archive_dl::store::DiskStep;
use lbp_archive_dl::store::FetchError;
use sha1::Digest;
use sha1::Sha1;

fn sha1_of(bytes: &[u8]) -> [u8; 20] {
    let mut hasher = Sha1::new();
    hasher.update(bytes);
    hasher.finalize().into()
}

#[test]
fn blob_matches_known_digest() {
    // SHA-1 of "abc", a published test vector.
    let expected = [
        0xa9u8, 0x99, 0x3e, 0x36, 0x47, 0x06, 0x81, 0x6a, 0xba, 0x3e, 0x25, 0x71, 0x78, 0x50,
        0xc2, 0x6c, 0x9c, 0xd0, 0xd8, 0x9d,
    ];
    assert!(blob_matches(&expected, &b"abc".to_vec()));
    assert!(!blob_matches(&expected, &b"abd".to_vec()));
    let wrong = [0u8; 20];
    assert!(!blob_matches(&wrong, &b"abc".to_vec()));
}

#[test]
fn claim_gate_grants_once() {
    let mut store = ContentStore::new();
    let h = sha1_of(b"resource");
    assert!(store.try_claim(&h));
    assert!(!store.try_claim(&h));
    assert!(!store.try_claim(&h));
    let other = sha1_of(b"another");
    assert!(store.try_claim(&other));
}

#[test]
fn disk_hit_records_verified_bytes() {
    let bytes = b"level data".to_vec();
    let h = sha1_of(&bytes);
    let mut store = ContentStore::new();
    assert!(store.try_claim(&h));
    let step = store.on_disk_probe(&h, DiskProbe::Found(bytes.clone())).unwrap();
    assert!(matches!(step, DiskStep::Cached));
    let result = store.into_result(0);
    assert_eq!(result.success_count, 1);
    assert_eq!(result.error_count, 0);
    let got = result.resources.get(&h).unwrap();
    assert_eq!(*got, bytes);
    // Integrity: the recorded bytes digest to their address.
    assert_eq!(sha1_of(got), h);
}

#[test]
fn corrupt_cache_file_is_rejected() {
    // A disk-cache file whose bytes do not hash to its name must be refused,
    // never served.
    let bytes = b"level data".to_vec();
    let h = sha1_of(&bytes);
    let mut tampered = bytes.clone();
    tampered[0] ^= 0xff;
    let mut store = ContentStore::new();
    assert!(store.try_claim(&h));
    let err = store.on_disk_probe(&h, DiskProbe::Found(tampered)).unwrap_err();
    assert!(matches!(
        err,
        FetchError::Corruption { hash, tier: CacheTier::Disk } if hash == h
    ));
    let result = store.into_result(0);
    assert_eq!(result.success_count, 0);
    assert!(result.resources.get(&h).is_none());
}

#[test]
fn disk_miss_directs_to_archive_location() {
    let mut h = [0u8; 20];
    h[0] = 0x93;
    h[1] = 0x4a;
    let mut store = ContentStore::new();
    assert!(store.try_claim(&h));
    let step = store.on_disk_probe(&h, DiskProbe::Absent).unwrap();
    match step {
        DiskStep::FetchFromArchive(loc) => {
            assert_eq!(loc.shard_folder, "LBP online levels 2023 (res 90-9f)");
            assert_eq!(loc.sub_folder, "dry23r9");
            assert_eq!(loc.archive_file, "dry93.zip");
        }
        DiskStep::Cached => panic!("an absent cache file cannot be a cache hit"),
    }
}

#[test]
fn archive_open_failure_is_fatal_and_persists_nothing() {
    // The archive file for the hash does not exist: the run must fail with
    // the archive-open error, and nothing may be recorded or handed out for
    // persisting.
    let h = sha1_of(b"missing");
    let mut store = ContentStore::new();
    assert!(store.try_claim(&h));
    let err = store.on_archive_outcome(&h, ArchiveOutcome::OpenFailed).unwrap_err();
    assert!(matches!(err, FetchError::ArchiveOpen { hash } if hash == h));
    let result = store.into_result(0);
    assert_eq!(result.success_count, 0);
    assert!(result.resources.get(&h).is_none());
}

#[test]
fn archive_entry_missing_is_fatal() {
    let h = sha1_of(b"absent entry");
    let mut store = ContentStore::new();
    assert!(store.try_claim(&h));
    let err = store.on_archive_outcome(&h, ArchiveOutcome::EntryMissing).unwrap_err();
    assert!(matches!(err, FetchError::MissingEntry { hash } if hash == h));
}

#[test]
fn archive_read_failure_is_fatal() {
    let h = sha1_of(b"unreadable");
    let mut store = ContentStore::new();
    assert!(store.try_claim(&h));
    let err = store.on_archive_outcome(&h, ArchiveOutcome::ReadFailed).unwrap_err();
    assert!(matches!(err, FetchError::Io { hash } if hash == h));
}

#[test]
fn archive_bytes_verified_and_returned_for_persisting() {
    let bytes = b"archived resource".to_vec();
    let h = sha1_of(&bytes);
    let mut store = ContentStore::new();
    assert!(store.try_claim(&h));
    let verified = store
        .on_archive_outcome(&h, ArchiveOutcome::Bytes(bytes.clone()))
        .unwrap();
    assert_eq!(verified, bytes);
    let result = store.into_result(0);
    assert_eq!(result.success_count, 1);
    assert_eq!(*result.resources.get(&h).unwrap(), bytes);
}

#[test]
fn corrupt_archive_bytes_are_fatal_and_never_persisted() {
    let bytes = b"archived resource".to_vec();
    let h = sha1_of(&bytes);
    let mut tampered = bytes.clone();
    tampered[3] = tampered[3].wrapping_add(1);
    let mut store = ContentStore::new();
    assert!(store.try_claim(&h));
    let err = store
        .on_archive_outcome(&h, ArchiveOutcome::Bytes(tampered))
        .unwrap_err();
    assert!(matches!(
        err,
        FetchError::Corruption { hash, tier: CacheTier::Archive } if hash == h
    ));
    let result = store.into_result(0);
    assert_eq!(result.success_count, 0);
}

#[test]
fn result_counts_extraction_failures() {
    let bytes = b"odd blob".to_vec();
    let h = sha1_of(&bytes);
    let mut store = ContentStore::new();
    assert!(store.try_claim(&h));
    store.on_disk_probe(&h, DiskProbe::Found(bytes)).unwrap();
    let result = store.into_result(3);
    assert_eq!(result.success_count, 1);
    assert_eq!(result.error_count, 3);
}

#[test]
fn hashes_lists_every_recorded_hash() {
    let a = b"first".to_vec();
    let b = b"second".to_vec();
    let ha = sha1_of(&a);
    let hb = sha1_of(&b);
    let mut store = ContentStore::new();
    assert!(store.try_claim(&ha));
    store.on_disk_probe(&ha, DiskProbe::Found(a)).unwrap();
    assert!(store.try_claim(&hb));
    store.on_disk_probe(&hb, DiskProbe::Found(b)).unwrap();
    let result = store.into_result(0);
    let mut hashes = result.resources.hashes();
    assert_eq!(hashes.len(), 2);
    hashes.sort();
    let mut expected = vec![ha, hb];
    expected.sort();
    assert_eq!(hashes, expected);
}
