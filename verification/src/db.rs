//! Metadata describing the games whose levels the archive holds, and the
//! decoding of raw database rows into typed slot information.

use vstd::prelude::*;
use vstd::string::StringExecFns;
use crate::resrc::ResrcDescriptor;

verus! {

/// Serialization revision of a binary resource, as stamped into its header.
#[derive(Clone, Copy, Debug, PartialEq, Eq, Structural)]
pub struct ResrcRevision {
    pub head: u32,
    pub branch_id: u16,
    pub branch_revision: u16,
}

/// The game a level belongs to.
#[derive(Clone, Copy, Debug, PartialEq, Eq, Structural)]
pub enum GameVersion {
    Lbp1,
    Lbp2,
    Lbp3,
}

impl GameVersion {
    pub fn get_title(&self) -> (r: &'static str)
        ensures
            *self == GameVersion::Lbp1 ==> r@ == "LittleBigPlanet™"@,
            *self == GameVersion::Lbp2 ==> r@ == "LittleBigPlanet™2"@,
            *self == GameVersion::Lbp3 ==> r@ == "LittleBigPlanet™3"@,
    {
        match self {
            Self::Lbp1 => "LittleBigPlanet™",
            Self::Lbp2 => "LittleBigPlanet™2",
            Self::Lbp3 => "LittleBigPlanet™3",
        }
    }

    pub fn get_short_title(&self) -> (r: &'static str)
        ensures
            *self == GameVersion::Lbp1 ==> r@ == "LBP1"@,
            *self == GameVersion::Lbp2 ==> r@ == "LBP2"@,
            *self == GameVersion::Lbp3 ==> r@ == "LBP3"@,
    {
        match self {
            Self::Lbp1 => "LBP1",
            Self::Lbp2 => "LBP2",
            Self::Lbp3 => "LBP3",
        }
    }

    pub fn get_titleid(&self) -> (r: &'static str)
        ensures
            r@ == spec_titleid(*self),
    {
        match self {
            Self::Lbp1 => "BCES00141",
            Self::Lbp2 => "BCES00850",
            Self::Lbp3 => "BCES01663",
        }
    }

    /// Version of the PARAM.PFD container a backup for this game uses.
    pub fn pfd_version(&self) -> (v: u8)
        ensures
            v == if *self == GameVersion::Lbp3 {
                4u8
            } else {
                3u8
            },
    {
        if *self == GameVersion::Lbp3 {
            4
        } else {
            3
        }
    }

    pub fn get_latest_revision(&self) -> (r: ResrcRevision)
        ensures
            *self == GameVersion::Lbp1 ==> r == (ResrcRevision {
                head: 0x272,
                branch_id: 0x4c44,
                branch_revision: 0x17,
            }),
            *self == GameVersion::Lbp2 ==> r == (ResrcRevision {
                head: 0x3f8,
                branch_id: 0x0,
                branch_revision: 0x0,
            }),
            *self == GameVersion::Lbp3 ==> r == (ResrcRevision {
                head: 0x21803f9,
                branch_id: 0x0,
                branch_revision: 0x0,
            }),
    {
        match self {
            Self::Lbp1 => ResrcRevision {
                head: 0x272,
                branch_id: 0x4c44,
                branch_revision: 0x17,
            },
            Self::Lbp2 => ResrcRevision {
                head: 0x3f8,
                branch_id: 0x0,
                branch_revision: 0x0,
            },
            Self::Lbp3 => ResrcRevision {
                head: 0x21803f9,
                branch_id: 0x0,
                branch_revision: 0x0,
            },
        }
    }
}

/// The PlayStation title id of each game's boxed release.
pub open spec fn spec_titleid(game: GameVersion) -> Seq<char> {
    match game {
        GameVersion::Lbp1 => "BCES00141"@,
        GameVersion::Lbp2 => "BCES00850"@,
        GameVersion::Lbp3 => "BCES01663"@,
    }
}

/// How a level is played.
#[derive(Clone, Copy, Debug, PartialEq, Eq, Structural)]
pub enum LevelType {
    Cooperative,
    Versus,
    Cutscene,
}

/// Typed form of one level row of the metadata database.
#[derive(Debug)]
pub struct SlotInfo {
    pub name: String,
    pub description: String,
    pub np_handle: String,
    pub root_level: [u8; 20],
    pub icon: ResrcDescriptor,
    pub game: GameVersion,
    pub initially_locked: bool,
    pub is_sub_level: bool,
    pub background_guid: Option<u32>,
    pub shareable: bool,
    pub author_labels: Vec<u32>,
    pub leveltype: LevelType,
    pub min_players: Option<u8>,
    pub max_players: Option<u8>,
    pub is_adventure_planet: bool,
}

/// Why a level row cannot be decoded.
#[derive(Clone, Copy, Debug, PartialEq, Eq, Structural)]
pub enum SlotRowError {
    /// The root-level blob is not 20 bytes.
    InvalidRootLevel,
    /// The icon blob is neither a 20-byte hash nor a 4-byte numeric id.
    InvalidIcon,
    /// The game column is not a known game.
    InvalidGameVersion,
    /// The level-type column is not a known level type.
    InvalidLevelType,
}

/// The big-endian 32-bit value of a 4-byte string.
pub open spec fn spec_u32_be(b: Seq<u8>) -> int {
    b[0] * 0x1000000 + b[1] * 0x10000 + b[2] * 0x100 + b[3]
}

/// Bit `i` of a byte string, bytes in order, least significant bit first
/// within each byte; bits past the end read as clear.
pub open spec fn spec_bit_at(blob: Seq<u8>, i: int) -> bool {
    0 <= i && i / 8 < blob.len() && (blob[i / 8] >> ((i % 8) as u8)) & 1u8 == 1u8
}

/// The label keys whose bit is set in the bitfield blob, in key order: key
/// `k` is selected when bit `k`'s position in the blob is set.
pub open spec fn spec_author_labels(blob: Seq<u8>, keys: Seq<u32>) -> Seq<u32>
    decreases keys.len(),
{
    if keys.len() == 0 {
        seq![]
    } else {
        spec_author_labels(blob, keys.drop_last()) + (if spec_bit_at(blob, keys.len() - 1) {
            seq![keys.last()]
        } else {
            seq![]
        })
    }
}

/// Select from the label key table the keys whose bit is set in the
/// bitfield blob.
pub fn author_labels_from_bits(blob: &Vec<u8>, keys: &Vec<u32>) -> (r: Vec<u32>)
    ensures
        r@ == spec_author_labels(blob@, keys@),
{
    let mut r: Vec<u32> = Vec::new();
    let mut i: usize = 0;
    while i < keys.len()
        invariant
            i <= keys@.len(),
            r@ == spec_author_labels(blob@, keys@.subrange(0, i as int)),
        decreases keys@.len() - i,
    {
        proof {
            assert(keys@.subrange(0, i + 1).drop_last() =~= keys@.subrange(0, i as int));
            assert(keys@.subrange(0, i + 1).last() == keys@[i as int]);
        }
        if i / 8 < blob.len() {
            let byte = blob[i / 8];
            let bit = (byte >> ((i % 8) as u8)) & 1u8;
            if bit == 1 {
                r.push(keys[i]);
            }
        }
        proof {
            assert(r@ =~= spec_author_labels(blob@, keys@.subrange(0, i + 1)));
        }
        i += 1;
    }
    proof {
        assert(keys@.subrange(0, keys@.len() as int) =~= keys@);
    }
    r
}

/// The big-endian 32-bit value of a 4-byte blob.
pub fn u32_from_be(b: &Vec<u8>) -> (r: u32)
    requires
        b@.len() == 4,
    ensures
        r == spec_u32_be(b@),
{
    (b[0] as u32) * 0x1000000 + (b[1] as u32) * 0x10000 + (b[2] as u32) * 0x100 + (b[3] as u32)
}

/// Copy a 20-byte blob into a content hash.
fn copy_hash20(v: &Vec<u8>) -> (r: [u8; 20])
    requires
        v@.len() == 20,
    ensures
        r@ == v@,
{
    let mut r: [u8; 20] = [0; 20];
    let mut i: usize = 0;
    while i < 20
        invariant
            i <= 20,
            v@.len() == 20,
            forall|j: int| 0 <= j < i ==> r@[j] == v@[j],
        decreases 20 - i,
    {
        r[i] = v[i];
        i += 1;
    }
    proof {
        assert(r@ =~= v@);
    }
    r
}

/// The content hash an icon column holds, if it holds one: exactly a 20-byte
/// blob is a hash.
pub fn icon_hash_from_blob(v: &Vec<u8>) -> (r: Option<[u8; 20]>)
    ensures
        match r {
            Some(h) => v@.len() == 20 && h@ == v@,
            None => v@.len() != 20,
        },
{
    if v.len() == 20 {
        Some(copy_hash20(v))
    } else {
        None
    }
}

/// Decode the raw column values of one level row into a `SlotInfo`.
/// `label_keys` is the table of label key ids the bitfield column indexes.
/// Each malformed column is rejected with its own error, in column order:
/// the root level must be a 20-byte hash, the icon must be a 20-byte hash or
/// a 4-byte numeric id, the game and the level type must be known.
pub fn slot_info_from_row(
    name: Option<String>,
    description: Option<String>,
    np_handle: String,
    raw_root: &Vec<u8>,
    raw_icon: &Vec<u8>,
    game_int: i64,
    initially_locked: i64,
    is_sub_level: i64,
    background: Option<i64>,
    shareable: i64,
    labels_blob: Option<&Vec<u8>>,
    label_keys: &Vec<u32>,
    leveltype: Option<String>,
    min_players: Option<i64>,
    max_players: Option<i64>,
    is_adventure_planet: i64,
) -> (r: Result<SlotInfo, SlotRowError>)
    ensures
        match r {
            Ok(si) => {
                &&& raw_root@.len() == 20
                &&& (raw_icon@.len() == 20 || raw_icon@.len() == 4)
                &&& (game_int == 0 || game_int == 1 || game_int == 2)
                &&& si.name@ == match name {
                    Some(n) => n@,
                    None => Seq::<char>::empty(),
                }
                &&& si.description@ == match description {
                    Some(d) => d@,
                    None => Seq::<char>::empty(),
                }
                &&& si.np_handle@ == np_handle@
                &&& si.root_level@ == raw_root@
                &&& (raw_icon@.len() == 20 ==> (si.icon matches ResrcDescriptor::Sha1(s) && s@
                    == raw_icon@))
                &&& (raw_icon@.len() == 4 ==> (si.icon matches ResrcDescriptor::Guid(g) && g
                    == spec_u32_be(raw_icon@)))
                &&& si.game == (if game_int == 0 {
                    GameVersion::Lbp1
                } else if game_int == 1 {
                    GameVersion::Lbp2
                } else {
                    GameVersion::Lbp3
                })
                &&& si.initially_locked == (initially_locked != 0)
                &&& si.is_sub_level == (is_sub_level != 0)
                &&& si.background_guid == match background {
                    Some(i) => Some(i as u32),
                    None => None::<u32>,
                }
                &&& si.shareable == (shareable != 0)
                &&& si.author_labels@ == match labels_blob {
                    Some(b) => spec_author_labels(b@, label_keys@),
                    None => Seq::<u32>::empty(),
                }
                &&& (leveltype matches Some(s) ==> (s@ == "versus"@ && si.leveltype
                    == LevelType::Versus) || (s@ == "cutscene"@ && si.leveltype
                    == LevelType::Cutscene))
                &&& (leveltype is None ==> si.leveltype == LevelType::Cooperative)
                &&& si.min_players == match min_players {
                    Some(i) => Some(i as u8),
                    None => None::<u8>,
                }
                &&& si.max_players == match max_players {
                    Some(i) => Some(i as u8),
                    None => None::<u8>,
                }
                &&& si.is_adventure_planet == (is_adventure_planet != 0)
            },
            Err(SlotRowError::InvalidRootLevel) => raw_root@.len() != 20,
            Err(SlotRowError::InvalidIcon) => raw_root@.len() == 20 && raw_icon@.len() != 20
                && raw_icon@.len() != 4,
            Err(SlotRowError::InvalidGameVersion) => raw_root@.len() == 20 && (raw_icon@.len()
                == 20 || raw_icon@.len() == 4) && game_int != 0 && game_int != 1 && game_int != 2,
            Err(SlotRowError::InvalidLevelType) => raw_root@.len() == 20 && (raw_icon@.len() == 20
                || raw_icon@.len() == 4) && (game_int == 0 || game_int == 1 || game_int == 2)
                && (leveltype matches Some(s) && s@ != "versus"@ && s@ != "cutscene"@),
        },
{
    if raw_root.len() != 20 {
        return Err(SlotRowError::InvalidRootLevel);
    }
    let root_level = copy_hash20(raw_root);

    let icon = if raw_icon.len() == 20 {
        ResrcDescriptor::Sha1(copy_hash20(raw_icon))
    } else if raw_icon.len() == 4 {
        ResrcDescriptor::Guid(u32_from_be(raw_icon))
    } else {
        return Err(SlotRowError::InvalidIcon);
    };

    let game = if game_int == 0 {
        GameVersion::Lbp1
    } else if game_int == 1 {
        GameVersion::Lbp2
    } else if game_int == 2 {
        GameVersion::Lbp3
    } else {
        return Err(SlotRowError::InvalidGameVersion);
    };

    let author_labels = match labels_blob {
        Some(b) => author_labels_from_bits(b, label_keys),
        None => Vec::new(),
    };

    let leveltype = match &leveltype {
        None => LevelType::Cooperative,
        Some(s) => {
            let versus = String::from_str("versus");
            let cutscene = String::from_str("cutscene");
            if s.eq(&versus) {
                LevelType::Versus
            } else if s.eq(&cutscene) {
                LevelType::Cutscene
            } else {
                return Err(SlotRowError::InvalidLevelType);
            }
        },
    };

    Ok(
        SlotInfo {
            name: match name {
                Some(n) => n,
                None => String::new(),
            },
            description: match description {
                Some(d) => d,
                None => String::new(),
            },
            np_handle,
            root_level,
            icon,
            game,
            initially_locked: initially_locked != 0,
            is_sub_level: is_sub_level != 0,
            background_guid: match background {
                Some(i) => Some(#[verifier::truncate] (i as u32)),
                None => None,
            },
            shareable: shareable != 0,
            author_labels,
            leveltype,
            min_players: match min_players {
                Some(i) => Some(#[verifier::truncate] (i as u8)),
                None => None,
            },
            max_players: match max_players {
                Some(i) => Some(#[verifier::truncate] (i as u8)),
                None => None,
            },
            is_adventure_planet: is_adventure_planet != 0,
        },
    )
}

proof fn lemma_contains_split(s: Seq<u32>, x: u32)
    requires
        s.len() > 0,
    ensures
        s.contains(x) <==> (s.drop_last().contains(x) || s.last() == x),
{
    if s.contains(x) {
        let i = choose|i: int| 0 <= i < s.len() && s[i] == x;
        if i < s.len() - 1 {
            assert(s.drop_last()[i] == x);
        }
    }
    if s.drop_last().contains(x) {
        let i = choose|i: int| 0 <= i < s.drop_last().len() && s.drop_last()[i] == x;
        assert(s[i] == x);
    }
    if s.last() == x {
        assert(s[s.len() - 1] == x);
    }
}

proof fn lemma_insert_contains(s: Seq<u32>, pos: int, v: u32, x: u32)
    requires
        0 <= pos <= s.len(),
    ensures
        s.insert(pos, v).contains(x) <==> (s.contains(x) || x == v),
{
    let t = s.insert(pos, v);
    if t.contains(x) {
        let i = choose|i: int| 0 <= i < t.len() && t[i] == x;
        if i < pos {
            assert(s[i] == x);
        } else if i > pos {
            assert(s[i - 1] == x);
        }
    }
    if s.contains(x) {
        let i = choose|i: int| 0 <= i < s.len() && s[i] == x;
        if i < pos {
            assert(t[i] == x);
        } else {
            assert(t[i + 1] == x);
        }
    }
    assert(t[pos] == v);
}

/// Sort queried level ids ascending and drop duplicates: the result holds
/// exactly the queried ids, in strictly ascending order.
pub fn unique_sorted_ids(ids: &Vec<u32>) -> (r: Vec<u32>)
    ensures
        forall|i: int, j: int| 0 <= i < j < r@.len() ==> r@[i] < r@[j],
        forall|x: u32| r@.contains(x) <==> ids@.contains(x),
{
    let mut r: Vec<u32> = Vec::new();
    let mut k: usize = 0;
    while k < ids.len()
        invariant
            k <= ids@.len(),
            forall|i: int, j: int| 0 <= i < j < r@.len() ==> r@[i] < r@[j],
            forall|x: u32| r@.contains(x) <==> ids@.subrange(0, k as int).contains(x),
        decreases ids@.len() - k,
    {
        let v = ids[k];
        let mut pos: usize = 0;
        while pos < r.len() && r[pos] < v
            invariant
                pos <= r@.len(),
                forall|i: int, j: int| 0 <= i < j < r@.len() ==> r@[i] < r@[j],
                forall|i: int| 0 <= i < pos ==> r@[i] < v,
            decreases r@.len() - pos,
        {
            pos += 1;
        }
        let ghost pre = r@;
        let present = pos < r.len() && r[pos] == v;
        if !present {
            r.insert(pos, v);
            proof {
                // Elements before the insertion point are below v, elements
                // at or past it are above v, so order is preserved.
                assert forall|i: int, j: int| 0 <= i < j < r@.len() implies r@[i] < r@[j] by {
                    if j < pos {
                        assert(r@[i] == pre[i] && r@[j] == pre[j]);
                    } else if i > pos {
                        assert(r@[i] == pre[i - 1] && r@[j] == pre[j - 1]);
                    } else {
                        if j > pos {
                            assert(r@[j] == pre[j - 1]);
                            assert(pos <= j - 1 < pre.len());
                            assert(pre[pos as int] > v);
                            if pos < j - 1 {
                                assert(pre[pos as int] < pre[j - 1]);
                            }
                            assert(v < pre[j - 1]);
                        }
                        if i < pos {
                            assert(r@[i] == pre[i] && pre[i] < v);
                        }
                    }
                }
            }
        }
        proof {
            assert(ids@.subrange(0, k + 1).drop_last() =~= ids@.subrange(0, k as int));
            assert(ids@.subrange(0, k + 1).last() == ids@[k as int]);
            assert forall|x: u32| r@.contains(x) <==> ids@.subrange(0, k + 1).contains(x) by {
                lemma_contains_split(ids@.subrange(0, k + 1), x);
                if present {
                    if x == v {
                        assert(pre[pos as int] == v);
                        assert(pre.contains(x));
                    }
                } else {
                    lemma_insert_contains(pre, pos as int, v, x);
                }
            }
        }
        k += 1;
    }
    proof {
        assert(ids@.subrange(0, ids@.len() as int) =~= ids@);
    }
    r
}

/// The largest number of concurrent archive extractions a run may use. A
/// request above the cap comes back as the cap; a request of zero is refused.
pub fn clamp_max_parallel(requested: usize) -> (r: Option<usize>)
    ensures
        match r {
            Some(m) => requested != 0 && m == if requested > 10 {
                10usize
            } else {
                requested
            },
            None => requested == 0,
        },
{
    if requested == 0 {
        None
    } else if requested > 10 {
        Some(10)
    } else {
        Some(requested)
    }
}

} // verus!
