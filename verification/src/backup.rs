//! Names of the folders a run writes: backup folder names built from the
//! game's title id, and dump folder names built from hashes and level ids.

use vstd::prelude::*;
use vstd::string::StringExecFns;
use crate::db::spec_titleid;
use crate::db::GameVersion;
use crate::hexstr::hex_digit_lower;
use crate::hexstr::hex_encode_upper;
use crate::hexstr::hex_upper;

verus! {

broadcast use vstd::array::group_array_axioms;

/// The big-endian byte string of a 32-bit value.
pub open spec fn spec_u32_be_bytes(x: u32) -> Seq<u8> {
    seq![
        ((x >> 24u32) & 0xffu32) as u8,
        ((x >> 16u32) & 0xffu32) as u8,
        ((x >> 8u32) & 0xffu32) as u8,
        (x & 0xffu32) as u8,
    ]
}

/// The big-endian bytes of a 32-bit value.
pub fn u32_be_bytes(x: u32) -> (r: Vec<u8>)
    ensures
        r@ == spec_u32_be_bytes(x),
{
    proof {
        assert((x >> 24u32) & 0xffu32 < 256 && (x >> 16u32) & 0xffu32 < 256 && (x >> 8u32)
            & 0xffu32 < 256 && x & 0xffu32 < 256) by (bit_vector);
    }
    let mut r: Vec<u8> = Vec::new();
    r.push(((x >> 24) & 0xff) as u8);
    r.push(((x >> 16) & 0xff) as u8);
    r.push(((x >> 8) & 0xff) as u8);
    r.push((x & 0xff) as u8);
    proof {
        assert(r@ =~= spec_u32_be_bytes(x));
    }
    r
}

/// The decimal form of a 32-bit value.
pub open spec fn spec_decimal(n: nat) -> Seq<char>
    decreases n,
{
    if n < 10 {
        seq![hex_digit_lower(n as u8)]
    } else {
        spec_decimal(n / 10) + seq![hex_digit_lower((n % 10) as u8)]
    }
}

/// The decimal digit characters. Digits below ten read the same in decimal
/// and hexadecimal.
fn decimal_digit_str(d: u8) -> (r: &'static str)
    requires
        d < 10,
    ensures
        r@ =~= seq![hex_digit_lower(d)],
{
    proof {
        reveal_strlit("0");
        reveal_strlit("1");
        reveal_strlit("2");
        reveal_strlit("3");
        reveal_strlit("4");
        reveal_strlit("5");
        reveal_strlit("6");
        reveal_strlit("7");
        reveal_strlit("8");
        reveal_strlit("9");
    }
    match d {
        0 => "0",
        1 => "1",
        2 => "2",
        3 => "3",
        4 => "4",
        5 => "5",
        6 => "6",
        7 => "7",
        8 => "8",
        _ => "9",
    }
}

/// Write a 32-bit value in decimal.
pub fn u32_to_decimal(x: u32) -> (r: String)
    ensures
        r@ == spec_decimal(x as nat),
    decreases x,
{
    if x < 10 {
        String::from_str(decimal_digit_str(x as u8))
    } else {
        let mut s = u32_to_decimal(x / 10);
        s.append(decimal_digit_str((x % 10) as u8));
        s
    }
}

/// Backup folder name for a whole planet fetched by its root hash: the title
/// id, then the uppercase hexadecimal hash.
pub fn planet_backup_name(game: GameVersion, hash: &[u8; 20]) -> (r: String)
    ensures
        r@ == spec_titleid(game) + "PLANET"@ + hex_upper(hash@),
{
    let mut s = String::from_str(game.get_titleid());
    s.append("PLANET");
    let hx = hex_encode_upper(hash.as_slice());
    s.append(hx.as_str());
    s
}

/// Display name of a planet fetched by hash alone.
pub fn planet_slot_name(hash: &[u8; 20]) -> (r: String)
    ensures
        r@ == "Planet "@ + hex_upper(hash@),
{
    let mut s = String::from_str("Planet ");
    let hx = hex_encode_upper(hash.as_slice());
    s.append(hx.as_str());
    s
}

/// Backup folder name for a level fetched by its database id: the title id,
/// the kind of backup, then the id as eight uppercase hexadecimal digits.
pub fn level_backup_name(game: GameVersion, is_adventure_planet: bool, level_id: u32) -> (r:
    String)
    ensures
        r@ == spec_titleid(game) + (if is_adventure_planet {
            "ADVLBP3AAZ"@
        } else {
            "LEVEL"@
        }) + hex_upper(spec_u32_be_bytes(level_id)),
{
    let mut s = String::from_str(game.get_titleid());
    if is_adventure_planet {
        s.append("ADVLBP3AAZ");
    } else {
        s.append("LEVEL");
    }
    let id_bytes = u32_be_bytes(level_id);
    let hx = hex_encode_upper(id_bytes.as_slice());
    s.append(hx.as_str());
    s
}

/// Dump folder name for a planet's resources.
pub fn planet_dump_dir_name(hash: &[u8; 20]) -> (r: String)
    ensures
        r@ == "planet_"@ + hex_upper(hash@),
{
    let mut s = String::from_str("planet_");
    let hx = hex_encode_upper(hash.as_slice());
    s.append(hx.as_str());
    s
}

/// Dump folder name for a level's resources.
pub fn level_dump_dir_name(level_id: u32) -> (r: String)
    ensures
        r@ == "level_"@ + spec_decimal(level_id as nat),
{
    let mut s = String::from_str("level_");
    let d = u32_to_decimal(level_id);
    s.append(d.as_str());
    s
}

} // verus!
