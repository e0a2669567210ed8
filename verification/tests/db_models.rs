//! Game metadata, level-row decoding, and the import records.

use lbp_archive_dl::db::author_labels_from_bits;
use lbp_archive_dl::db::clamp_max_parallel;
use lbp_archive_dl::db::icon_hash_from_blob;
use lbp_archive_dl::db::unique_sorted_ids;
use lbp_archive_dl::db::slot_info_from_row;
use lbp_archive_dl::db::u32_from_be;
use lbp_archive_dl::db::GameVersion;
use lbp_archive_dl::db::LevelType;
use lbp_archive_dl::db::SlotRowError;
use lbp_archive_dl::models::deps_for;
use lbp_archive_dl::models::fetch_all_assets;
use lbp_archive_dl::models::relations_for;
use lbp_archive_dl::models::timestamp_from_millis;
use lbp_archive_dl::models::AssetDependencyRelation;
use lbp_archive_dl::models::GameLevel;
use lbp_archive_dl::models::GameUser;
use lbp_archive_dl::resrc::hashes_in_blob;
use lbp_archive_dl::resrc::ResrcClass;
use lbp_archive_dl::resrc::ResrcDescriptor;

#[test]
fn game_titles() {
    assert_eq!(GameVersion::Lbp1.get_title(), "LittleBigPlanet™");
    assert_eq!(GameVersion::Lbp2.get_title(), "LittleBigPlanet™2");
    assert_eq!(GameVersion::Lbp3.get_title(), "LittleBigPlanet™3");
    assert_eq!(GameVersion::Lbp1.get_short_title(), "LBP1");
    assert_eq!(GameVersion::Lbp2.get_short_title(), "LBP2");
    assert_eq!(GameVersion::Lbp3.get_short_title(), "LBP3");
    assert_eq!(GameVersion::Lbp1.get_titleid(), "BCES00141");
    assert_eq!(GameVersion::Lbp2.get_titleid(), "BCES00850");
    assert_eq!(GameVersion::Lbp3.get_titleid(), "BCES01663");
}

#[test]
fn latest_revisions() {
    let r1 = GameVersion::Lbp1.get_latest_revision();
    assert_eq!(r1.head, 0x272);
    assert_eq!(r1.branch_id, 0x4c44);
    assert_eq!(r1.branch_revision, 0x17);
    let r2 = GameVersion::Lbp2.get_latest_revision();
    assert_eq!(r2.head, 0x3f8);
    assert_eq!(r2.branch_id, 0);
    assert_eq!(r2.branch_revision, 0);
    let r3 = GameVersion::Lbp3.get_latest_revision();
    assert_eq!(r3.head, 0x21803f9);
    assert_eq!(r3.branch_id, 0);
    assert_eq!(r3.branch_revision, 0);
}

#[test]
fn pfd_versions() {
    assert_eq!(GameVersion::Lbp1.pfd_version(), 3);
    assert_eq!(GameVersion::Lbp2.pfd_version(), 3);
    assert_eq!(GameVersion::Lbp3.pfd_version(), 4);
}

#[test]
fn parallelism_is_clamped() {
    assert_eq!(clamp_max_parallel(0), None);
    assert_eq!(clamp_max_parallel(1), Some(1));
    assert_eq!(clamp_max_parallel(10), Some(10));
    assert_eq!(clamp_max_parallel(11), Some(10));
    assert_eq!(clamp_max_parallel(usize::MAX), Some(10));
}

#[test]
fn u32_big_endian_decoding() {
    assert_eq!(u32_from_be(&vec![0x12, 0x34, 0x56, 0x78]), 0x12345678);
    assert_eq!(u32_from_be(&vec![0, 0, 0, 1]), 1);
    assert_eq!(u32_from_be(&vec![0xff, 0xff, 0xff, 0xff]), u32::MAX);
}

#[test]
fn author_label_bits_select_keys() {
    // Bits 0 and 2 set: the first and third keys are selected, in key order.
    let blob = vec![0b0000_0101u8];
    let keys = vec![10u32, 20, 30];
    assert_eq!(author_labels_from_bits(&blob, &keys), vec![10, 30]);
    // Bit 8 lives in the second byte, least significant bit first.
    let blob2 = vec![0x00u8, 0x01];
    let keys2 = vec![1u32, 2, 3, 4, 5, 6, 7, 8, 9];
    assert_eq!(author_labels_from_bits(&blob2, &keys2), vec![9]);
    // Keys whose bit lies past the blob read as clear.
    let blob3 = vec![0xffu8];
    let keys3 = vec![0u32; 12];
    assert_eq!(author_labels_from_bits(&blob3, &keys3).len(), 8);
}

fn valid_row_icon(raw_icon: Vec<u8>) -> Result<lbp_archive_dl::db::SlotInfo, SlotRowError> {
    slot_info_from_row(
        Some("A Level".to_string()),
        None,
        "creator".to_string(),
        &vec![7u8; 20],
        &raw_icon,
        1,
        1,
        0,
        Some(12345),
        1,
        Some(&vec![0b0000_0011u8]),
        &vec![100u32, 200, 300],
        Some("versus".to_string()),
        Some(2),
        Some(4),
        0,
    )
}

#[test]
fn slot_row_decodes() {
    let si = valid_row_icon(vec![9u8; 20]).unwrap();
    assert_eq!(si.name, "A Level");
    assert_eq!(si.description, "");
    assert_eq!(si.np_handle, "creator");
    assert_eq!(si.root_level, [7u8; 20]);
    assert!(matches!(si.icon, ResrcDescriptor::Sha1(s) if s == [9u8; 20]));
    assert_eq!(si.game, GameVersion::Lbp2);
    assert!(si.initially_locked);
    assert!(!si.is_sub_level);
    assert_eq!(si.background_guid, Some(12345));
    assert!(si.shareable);
    assert_eq!(si.author_labels, vec![100, 200]);
    assert_eq!(si.leveltype, LevelType::Versus);
    assert_eq!(si.min_players, Some(2));
    assert_eq!(si.max_players, Some(4));
    assert!(!si.is_adventure_planet);
}

#[test]
fn slot_row_numeric_icon() {
    let si = valid_row_icon(vec![0x00, 0x01, 0x02, 0x03]).unwrap();
    assert!(matches!(si.icon, ResrcDescriptor::Guid(g) if g == 0x00010203));
}

#[test]
fn slot_row_rejects_bad_columns() {
    let err = slot_info_from_row(
        None,
        None,
        "c".to_string(),
        &vec![7u8; 19],
        &vec![9u8; 20],
        0,
        0,
        0,
        None,
        0,
        None,
        &vec![],
        None,
        None,
        None,
        0,
    )
    .unwrap_err();
    assert_eq!(err, SlotRowError::InvalidRootLevel);

    let err = valid_row_icon(vec![9u8; 7]).unwrap_err();
    assert_eq!(err, SlotRowError::InvalidIcon);

    let err = slot_info_from_row(
        None,
        None,
        "c".to_string(),
        &vec![7u8; 20],
        &vec![9u8; 20],
        3,
        0,
        0,
        None,
        0,
        None,
        &vec![],
        None,
        None,
        None,
        0,
    )
    .unwrap_err();
    assert_eq!(err, SlotRowError::InvalidGameVersion);

    let err = slot_info_from_row(
        None,
        None,
        "c".to_string(),
        &vec![7u8; 20],
        &vec![9u8; 20],
        2,
        0,
        0,
        None,
        0,
        None,
        &vec![],
        Some("raceway".to_string()),
        None,
        None,
        0,
    )
    .unwrap_err();
    assert_eq!(err, SlotRowError::InvalidLevelType);
}

#[test]
fn slot_row_leveltypes() {
    let mut si = valid_row_icon(vec![9u8; 20]).unwrap();
    assert_eq!(si.leveltype, LevelType::Versus);
    si = slot_info_from_row(
        None,
        None,
        "c".to_string(),
        &vec![7u8; 20],
        &vec![9u8; 20],
        0,
        0,
        0,
        None,
        0,
        None,
        &vec![],
        None,
        None,
        None,
        1,
    )
    .unwrap();
    assert_eq!(si.leveltype, LevelType::Cooperative);
    assert!(si.is_adventure_planet);
    si = slot_info_from_row(
        None,
        None,
        "c".to_string(),
        &vec![7u8; 20],
        &vec![9u8; 20],
        0,
        0,
        0,
        None,
        0,
        None,
        &vec![],
        Some("cutscene".to_string()),
        None,
        None,
        0,
    )
    .unwrap();
    assert_eq!(si.leveltype, LevelType::Cutscene);
}

#[test]
fn icon_blob_is_a_hash_only_at_twenty_bytes() {
    assert_eq!(icon_hash_from_blob(&vec![5u8; 20]), Some([5u8; 20]));
    assert_eq!(icon_hash_from_blob(&vec![5u8; 19]), None);
    assert_eq!(icon_hash_from_blob(&vec![5u8; 21]), None);
    assert_eq!(icon_hash_from_blob(&Vec::new()), None);
}

#[test]
fn level_ids_sorted_and_deduplicated() {
    assert_eq!(
        unique_sorted_ids(&vec![5, 3, 5, 1, 3, 3, 9]),
        vec![1, 3, 5, 9]
    );
    assert_eq!(unique_sorted_ids(&Vec::new()), Vec::<u32>::new());
    assert_eq!(unique_sorted_ids(&vec![7, 7, 7]), vec![7]);
    assert_eq!(unique_sorted_ids(&vec![1, 2, 3]), vec![1, 2, 3]);
}

#[test]
fn millisecond_timestamps_split() {
    let t = timestamp_from_millis(1234);
    assert_eq!(t.secs, 1);
    assert_eq!(t.nanos, 234_000_000);
    let zero = timestamp_from_millis(0);
    assert_eq!((zero.secs, zero.nanos), (0, 0));
    let exact = timestamp_from_millis(5000);
    assert_eq!((exact.secs, exact.nanos), (5, 0));
}

#[test]
fn user_row_maps_to_import_record() {
    let u = GameUser::from_row(
        "player one".to_string(),
        &vec![0xab, 0xcd],
        17,
        42,
        1,
        &vec![0x12, 0x34],
    );
    assert_eq!(u.username, "player one");
    assert_eq!(u.icon_hash, "abcd");
    assert_eq!(u.location_x, 17);
    assert_eq!(u.location_y, 42);
    assert!(u.allow_ip_authentication);
    assert_eq!(u.lbp2_planets_hash, "1234");
    assert_eq!(u.email_address.as_deref(), Some(""));
    assert_eq!(u.filesize_quota_usage, 0);
    assert_eq!((u.join_date.secs, u.join_date.nanos), (0, 0));
}

#[test]
fn level_row_maps_to_import_record() {
    let l = GameLevel::from_row(
        3622,
        1,
        Some("The Factory".to_string()),
        &vec![0x0a, 0x0b],
        None,
        5,
        6,
        &vec![0xfe, 0xdc],
        Some(1234),
        None,
        Some(1),
        Some(4),
    );
    assert_eq!(l.level_id, 3622);
    assert!(l.is_adventure);
    assert_eq!(l.title, "The Factory");
    assert_eq!(l.icon_hash, "0a0b");
    assert_eq!(l.description, "");
    assert_eq!(l.location_x, 5);
    assert_eq!(l.location_y, 6);
    assert_eq!(l.root_resource, "fedc");
    assert_eq!((l.publish_date.secs, l.publish_date.nanos), (1, 234_000_000));
    assert_eq!((l.update_date.secs, l.update_date.nanos), (0, 0));
    assert_eq!(l.min_players, 1);
    assert_eq!(l.max_players, 4);
    assert_eq!(l.original_publisher.as_deref(), Some(""));
}

#[test]
fn relations_come_from_hash_references_only() {
    let parent = [0x11u8; 20];
    let class = ResrcClass::Binary(vec![
        ResrcDescriptor::Sha1([0x22u8; 20]),
        ResrcDescriptor::Guid(7),
        ResrcDescriptor::Sha1([0x33u8; 20]),
    ]);
    let rels = relations_for(&parent, &class);
    assert_eq!(rels.len(), 2);
    assert_eq!(rels[0].dependent, "11".repeat(20));
    assert_eq!(rels[0].dependency, "22".repeat(20));
    assert_eq!(rels[1].dependency, "33".repeat(20));
    assert_eq!(relations_for(&parent, &ResrcClass::Other).len(), 0);
    assert_eq!(relations_for(&parent, &ResrcClass::Unparsed).len(), 0);
}

#[test]
fn assets_and_their_dependencies() {
    let hashes = vec![[0x11u8; 20], [0x22u8; 20]];
    let assets = fetch_all_assets(&hashes);
    assert_eq!(assets.len(), 2);
    assert_eq!(assets[0].asset_hash, "11".repeat(20));
    assert_eq!(assets[1].asset_hash, "22".repeat(20));
    assert!(assets[0].dependencies.is_empty());

    let rels = vec![
        AssetDependencyRelation {
            dependent: "11".repeat(20),
            dependency: "22".repeat(20),
        },
        AssetDependencyRelation {
            dependent: "33".repeat(20),
            dependency: "44".repeat(20),
        },
        AssetDependencyRelation {
            dependent: "11".repeat(20),
            dependency: "55".repeat(20),
        },
    ];
    let deps = deps_for(&rels, &assets[0].asset_hash);
    assert_eq!(deps, vec!["22".repeat(20), "55".repeat(20)]);
    assert!(deps_for(&rels, &assets[1].asset_hash).is_empty());
}

#[test]
fn planets_blob_splits_into_hashes() {
    let mut blob = Vec::new();
    blob.extend_from_slice(&[0xaau8; 20]);
    blob.extend_from_slice(&[0xbbu8; 20]);
    blob.push(0xcc);
    let hashes = hashes_in_blob(&blob);
    assert_eq!(hashes, vec![[0xaau8; 20], [0xbbu8; 20]]);
    assert!(hashes_in_blob(&vec![1, 2, 3]).is_empty());
    assert!(hashes_in_blob(&Vec::new()).is_empty());
}
