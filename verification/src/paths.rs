//! The archive layout: a pure mapping from a content hash to the shard
//! folder, sub-folder, archive file and in-archive entry path where the
//! resource must live, and to the disk-cache file name. Any deviation from
//! this scheme surfaces as a missing entry, never as wrong content, because
//! every byte read is verified against its hash afterwards.

use vstd::prelude::*;
use vstd::string::StrSliceExecFns;
use vstd::string::StringExecFns;
use crate::hexstr::hex_digit_lower;
use crate::hexstr::hex_encode;
use crate::hexstr::hex_lower;
use crate::hexstr::lemma_hex_lower_ascii;
use crate::hexstr::lemma_hex_lower_len;

verus! {

broadcast use vstd::array::group_array_axioms;

/// Where a resource lives in the archive layout.
#[derive(Debug)]
pub struct ArchiveLocation {
    /// Top-level shard folder, one per 16th of the address space.
    pub shard_folder: String,
    /// Sub-folder inside the shard, keyed by the first hexadecimal digit.
    pub sub_folder: String,
    /// Archive file name, one archive per 256th of the address space.
    pub archive_file: String,
    /// Entry path inside the archive: `byte0/byte1/<full-hex-hash>`.
    pub entry_path: String,
}

/// Shard folder name: the inclusive 16-value range of the first byte, written
/// as two two-digit hexadecimal bounds sharing the high nibble.
pub open spec fn spec_shard_folder(h: Seq<u8>) -> Seq<char> {
    "LBP online levels 2023 (res "@ + hex_lower(h).subrange(0, 1) + "0-"@ + hex_lower(
        h,
    ).subrange(0, 1) + "f)"@
}

/// Sub-folder name, keyed by the first hexadecimal digit of the hash.
pub open spec fn spec_sub_folder(h: Seq<u8>) -> Seq<char> {
    "dry23r"@ + hex_lower(h).subrange(0, 1)
}

/// Archive file name, keyed by the first byte of the hash.
pub open spec fn spec_archive_file(h: Seq<u8>) -> Seq<char> {
    "dry"@ + hex_lower(h).subrange(0, 2) + ".zip"@
}

/// In-archive entry path: first byte, second byte, then the full hash, all in
/// lowercase hexadecimal.
pub open spec fn spec_entry_path(h: Seq<u8>) -> Seq<char> {
    hex_lower(h).subrange(0, 2) + "/"@ + hex_lower(h).subrange(2, 4) + "/"@ + hex_lower(h)
}

/// An `ArchiveLocation` holds exactly the four names the layout derives from
/// the hash.
pub open spec fn is_location_for(loc: ArchiveLocation, h: Seq<u8>) -> bool {
    &&& loc.shard_folder@ == spec_shard_folder(h)
    &&& loc.sub_folder@ == spec_sub_folder(h)
    &&& loc.archive_file@ == spec_archive_file(h)
    &&& loc.entry_path@ == spec_entry_path(h)
}

/// The digits the layout names are the nibbles of the leading hash bytes:
/// the sub-folder digit is the high nibble of byte 0, the archive file is
/// keyed by both nibbles of byte 0, and the entry fans out over byte 0 and
/// byte 1.
pub proof fn lemma_layout_digits(h: Seq<u8>)
    requires
        h.len() >= 2,
    ensures
        hex_lower(h).subrange(0, 1) =~= seq![hex_digit_lower(h[0] >> 4u8)],
        hex_lower(h).subrange(0, 2) =~= seq![
            hex_digit_lower(h[0] >> 4u8),
            hex_digit_lower(h[0] & 0x0fu8),
        ],
        hex_lower(h).subrange(2, 4) =~= seq![
            hex_digit_lower(h[1] >> 4u8),
            hex_digit_lower(h[1] & 0x0fu8),
        ],
{
    lemma_hex_lower_len(h);
    lemma_hex_lower_len(h.drop_first());
    assert(h.drop_first().first() == h[1]);
    assert(hex_lower(h)[2] == hex_lower(h.drop_first())[0]);
    assert(hex_lower(h)[3] == hex_lower(h.drop_first())[1]);
}

/// The shard folder bounds are the first byte masked down and up to its
/// 16-value range: for a first byte `b` the folder names the inclusive range
/// from `b & 0xf0` to `b | 0x0f`, each written as two hexadecimal digits.
pub proof fn lemma_shard_folder_is_byte_range(h: Seq<u8>)
    requires
        h.len() >= 2,
    ensures
        spec_shard_folder(h) =~= "LBP online levels 2023 (res "@ + hex_lower(
            seq![(h[0] & 0xf0u8)],
        ) + "-"@ + hex_lower(seq![(h[0] | 0x0fu8)]) + ")"@,
{
    let b = h[0];
    assert((b & 0xf0u8) >> 4u8 == b >> 4u8) by (bit_vector);
    assert((b & 0xf0u8) & 0x0fu8 == 0u8) by (bit_vector);
    assert((b | 0x0fu8) >> 4u8 == b >> 4u8) by (bit_vector);
    assert((b | 0x0fu8) & 0x0fu8 == 0x0fu8) by (bit_vector);
    lemma_layout_digits(h);
    let lo = seq![(b & 0xf0u8)];
    let hi = seq![(b | 0x0fu8)];
    assert(hex_lower(lo.drop_first()) =~= Seq::<char>::empty());
    assert(hex_lower(hi.drop_first()) =~= Seq::<char>::empty());
    assert(hex_lower(lo) =~= seq![hex_digit_lower(b >> 4u8), '0']);
    assert(hex_lower(hi) =~= seq![hex_digit_lower(b >> 4u8), 'f']);
    reveal_strlit("0-");
    reveal_strlit("f)");
    reveal_strlit("-");
    reveal_strlit(")");
}

/// Compute the archive location of a hash: its shard folder, sub-folder,
/// archive file and in-archive entry path.
pub fn resolve_archive_location(hash: &[u8; 20]) -> (loc: ArchiveLocation)
    ensures
        is_location_for(loc, hash@),
{
    let hx = hex_encode(hash.as_slice());
    proof {
        lemma_hex_lower_len(hash@);
        lemma_hex_lower_ascii(hash@);
    }
    let hs = hx.as_str();
    let n0 = hs.substring_ascii(0, 1);
    let b0 = hs.substring_ascii(0, 2);
    let b1 = hs.substring_ascii(2, 4);

    let mut shard_folder = String::from_str("LBP online levels 2023 (res ");
    shard_folder.append(n0);
    shard_folder.append("0-");
    shard_folder.append(n0);
    shard_folder.append("f)");

    let mut sub_folder = String::from_str("dry23r");
    sub_folder.append(n0);

    let mut archive_file = String::from_str("dry");
    archive_file.append(b0);
    archive_file.append(".zip");

    let mut entry_path = String::from_str(b0);
    entry_path.append("/");
    entry_path.append(b1);
    entry_path.append("/");
    entry_path.append(hx.as_str());

    ArchiveLocation { shard_folder, sub_folder, archive_file, entry_path }
}

/// Name of the disk-cache file for a hash: its full lowercase hexadecimal
/// form.
pub fn cache_file_name(hash: &[u8; 20]) -> (r: String)
    ensures
        r@ == hex_lower(hash@),
{
    hex_encode(hash.as_slice())
}

} // verus!
