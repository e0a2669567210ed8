//! The import records built from the metadata database and the resolved
//! resources. Identities assigned at import time (object ids) and
//! serialization live with the caller; these records hold the values the
//! rows and resources determine.

use vstd::prelude::*;
use crate::hexstr::hex_encode;
use crate::hexstr::hex_lower;
use crate::resrc::spec_hash_children;
use crate::resrc::ResrcClass;
use crate::resrc::ResrcDescriptor;

verus! {

/// A point in time as seconds and nanoseconds since the epoch.
#[derive(Clone, Copy, Debug, PartialEq, Eq, Structural)]
pub struct Timestamp {
    pub secs: u64,
    pub nanos: u32,
}

/// Split epoch milliseconds into whole seconds and the nanosecond remainder.
pub fn timestamp_from_millis(ms: u64) -> (t: Timestamp)
    ensures
        t.secs == ms / 1000,
        t.nanos == (ms % 1000) * 1000000,
{
    let secs = ms / 1000;
    let rem = ms % 1000;
    Timestamp { secs, nanos: (rem as u32) * 1000000 }
}

/// One user row prepared for import. Fields the source database does not
/// carry are fixed to their blank values.
#[derive(Debug)]
pub struct GameUser {
    pub username: String,
    pub email_address: Option<String>,
    pub password_bcrypt: Option<String>,
    pub email_address_verified: bool,
    pub should_reset_password: bool,
    pub icon_hash: String,
    pub psp_icon_hash: String,
    pub vita_icon_hash: String,
    pub beta_icon_hash: String,
    pub filesize_quota_usage: i64,
    pub description: String,
    pub location_x: i64,
    pub location_y: i64,
    pub join_date: Timestamp,
    pub beta_planets_hash: String,
    pub lbp2_planets_hash: String,
    pub lbp3_planets_hash: String,
    pub vita_planets_hash: String,
    pub yay_face_hash: String,
    pub boo_face_hash: String,
    pub meh_face_hash: String,
    pub allow_ip_authentication: bool,
    pub ban_reason: Option<String>,
    pub ban_expiry_date: Option<Timestamp>,
    pub last_login_date: Timestamp,
    pub rpcn_authentication_allowed: bool,
    pub psn_authentication_allowed: bool,
    pub _profile_visibility: i64,
    pub _level_visibility: i64,
    pub presence_server_auth_token: Option<String>,
    pub unescape_xml_sequences: bool,
    pub show_modded_content: bool,
    pub _role: i64,
}

impl GameUser {
    /// Build the import record of one user row: the name, the hexadecimal
    /// icon and planets hashes, the location, and whether comments were
    /// enabled; everything else is blank.
    pub fn from_row(
        username: String,
        icon_blob: &Vec<u8>,
        location_x: u16,
        location_y: u16,
        comments_enabled: i64,
        planets_blob: &Vec<u8>,
    ) -> (u: GameUser)
        ensures
            u.username@ == username@,
            u.icon_hash@ == hex_lower(icon_blob@),
            u.location_x == location_x as i64,
            u.location_y == location_y as i64,
            u.allow_ip_authentication == (comments_enabled != 0),
            u.lbp2_planets_hash@ == hex_lower(planets_blob@),
            u.email_address matches Some(s) && s@ =~= Seq::<char>::empty(),
            u.password_bcrypt matches Some(s) && s@ =~= Seq::<char>::empty(),
            !u.email_address_verified,
            !u.should_reset_password,
            u.psp_icon_hash@ =~= Seq::<char>::empty(),
            u.vita_icon_hash@ =~= Seq::<char>::empty(),
            u.beta_icon_hash@ =~= Seq::<char>::empty(),
            u.filesize_quota_usage == 0,
            u.description@ =~= Seq::<char>::empty(),
            u.join_date == (Timestamp { secs: 0, nanos: 0 }),
            u.beta_planets_hash@ =~= Seq::<char>::empty(),
            u.lbp3_planets_hash@ =~= Seq::<char>::empty(),
            u.vita_planets_hash@ =~= Seq::<char>::empty(),
            u.yay_face_hash@ =~= Seq::<char>::empty(),
            u.boo_face_hash@ =~= Seq::<char>::empty(),
            u.meh_face_hash@ =~= Seq::<char>::empty(),
            u.ban_reason is None,
            u.ban_expiry_date is None,
            u.last_login_date == (Timestamp { secs: 0, nanos: 0 }),
            !u.rpcn_authentication_allowed,
            !u.psn_authentication_allowed,
            u._profile_visibility == 0,
            u._level_visibility == 0,
            u.presence_server_auth_token is None,
            !u.unescape_xml_sequences,
            !u.show_modded_content,
            u._role == 0,
    {
        GameUser {
            username,
            email_address: Some(String::new()),
            password_bcrypt: Some(String::new()),
            email_address_verified: false,
            should_reset_password: false,
            icon_hash: hex_encode(icon_blob.as_slice()),
            psp_icon_hash: String::new(),
            vita_icon_hash: String::new(),
            beta_icon_hash: String::new(),
            filesize_quota_usage: 0,
            description: String::new(),
            location_x: location_x as i64,
            location_y: location_y as i64,
            join_date: Timestamp { secs: 0, nanos: 0 },
            beta_planets_hash: String::new(),
            lbp2_planets_hash: hex_encode(planets_blob.as_slice()),
            lbp3_planets_hash: String::new(),
            vita_planets_hash: String::new(),
            yay_face_hash: String::new(),
            boo_face_hash: String::new(),
            meh_face_hash: String::new(),
            allow_ip_authentication: comments_enabled != 0,
            ban_reason: None,
            ban_expiry_date: None,
            last_login_date: Timestamp { secs: 0, nanos: 0 },
            rpcn_authentication_allowed: false,
            psn_authentication_allowed: false,
            _profile_visibility: 0,
            _level_visibility: 0,
            presence_server_auth_token: None,
            unescape_xml_sequences: false,
            show_modded_content: false,
            _role: 0,
        }
    }
}

/// One level row prepared for import. The review score lives with the
/// caller, which also assigns the publisher identity.
#[derive(Debug)]
pub struct GameLevel {
    pub level_id: i64,
    pub is_adventure: bool,
    pub title: String,
    pub icon_hash: String,
    pub description: String,
    pub location_x: i64,
    pub location_y: i64,
    pub root_resource: String,
    pub publish_date: Timestamp,
    pub update_date: Timestamp,
    pub min_players: i64,
    pub max_players: i64,
    pub enforce_min_max_players: bool,
    pub same_screen_game: bool,
    pub date_team_picked: Option<Timestamp>,
    pub is_modded: bool,
    pub background_guid: Option<String>,
    pub _game_version: i64,
    pub _level_type: i64,
    pub story_id: i64,
    pub is_locked: bool,
    pub is_sub_level: bool,
    pub is_copyable: bool,
    pub original_publisher: Option<String>,
    pub is_re_upload: bool,
}

impl GameLevel {
    /// Build the import record of one level row: identity, titles and
    /// hexadecimal resource hashes, location, publish and update times in
    /// epoch milliseconds, and the player bounds; everything else is blank.
    pub fn from_row(
        level_id: u32,
        is_adventure: i64,
        name: Option<String>,
        icon_blob: &Vec<u8>,
        description: Option<String>,
        location_x: u16,
        location_y: u16,
        root_blob: &Vec<u8>,
        first_published: Option<u64>,
        last_updated: Option<u64>,
        min_players: Option<u8>,
        max_players: Option<u8>,
    ) -> (l: GameLevel)
        ensures
            l.level_id == level_id as i64,
            l.is_adventure == (is_adventure != 0),
            l.title@ == match name {
                Some(n) => n@,
                None => Seq::<char>::empty(),
            },
            l.icon_hash@ == hex_lower(icon_blob@),
            l.description@ == match description {
                Some(d) => d@,
                None => Seq::<char>::empty(),
            },
            l.location_x == location_x as i64,
            l.location_y == location_y as i64,
            l.root_resource@ == hex_lower(root_blob@),
            l.publish_date == spec_timestamp_of_millis_opt(first_published),
            l.update_date == spec_timestamp_of_millis_opt(last_updated),
            l.min_players == match min_players {
                Some(p) => p as i64,
                None => 0i64,
            },
            l.max_players == match max_players {
                Some(p) => p as i64,
                None => 0i64,
            },
            !l.enforce_min_max_players,
            !l.same_screen_game,
            l.date_team_picked is None,
            !l.is_modded,
            l.background_guid is None,
            l._game_version == 0,
            l._level_type == 0,
            l.story_id == 0,
            !l.is_locked,
            !l.is_sub_level,
            !l.is_copyable,
            l.original_publisher matches Some(s) && s@ =~= Seq::<char>::empty(),
            !l.is_re_upload,
    {
        GameLevel {
            level_id: level_id as i64,
            is_adventure: is_adventure != 0,
            title: match name {
                Some(n) => n,
                None => String::new(),
            },
            icon_hash: hex_encode(icon_blob.as_slice()),
            description: match description {
                Some(d) => d,
                None => String::new(),
            },
            location_x: location_x as i64,
            location_y: location_y as i64,
            root_resource: hex_encode(root_blob.as_slice()),
            publish_date: timestamp_from_millis(
                match first_published {
                    Some(ms) => ms,
                    None => 0,
                },
            ),
            update_date: timestamp_from_millis(
                match last_updated {
                    Some(ms) => ms,
                    None => 0,
                },
            ),
            min_players: match min_players {
                Some(p) => p as i64,
                None => 0,
            },
            max_players: match max_players {
                Some(p) => p as i64,
                None => 0,
            },
            enforce_min_max_players: false,
            same_screen_game: false,
            date_team_picked: None,
            is_modded: false,
            background_guid: None,
            _game_version: 0,
            _level_type: 0,
            story_id: 0,
            is_locked: false,
            is_sub_level: false,
            is_copyable: false,
            original_publisher: Some(String::new()),
            is_re_upload: false,
        }
    }
}

/// The time an optional epoch-millisecond value denotes; absent means the
/// epoch itself.
pub open spec fn spec_timestamp_of_millis_opt(ms: Option<u64>) -> Timestamp {
    let m = match ms {
        Some(m) => m,
        None => 0u64,
    };
    Timestamp { secs: (m / 1000) as u64, nanos: ((m % 1000) * 1000000) as u32 }
}

/// One dependency edge between two resources, both as hexadecimal hashes.
#[derive(Debug)]
pub struct AssetDependencyRelation {
    pub dependent: String,
    pub dependency: String,
}

/// The dependency relations one classified resource contributes: one edge
/// from the resource to each content-hash reference its blob reports. A blob
/// that is not a structured binary resource, or that the extractor could not
/// classify, contributes none.
pub fn relations_for(parent: &[u8; 20], class: &ResrcClass) -> (r: Vec<AssetDependencyRelation>)
    ensures
        match *class {
            ResrcClass::Binary(descs) => {
                &&& r@.len() == spec_hash_children(descs@).len()
                &&& forall|k: int|
                    0 <= k < r@.len() ==> (#[trigger] r@[k].dependent@) == hex_lower(parent@)
                        && r@[k].dependency@ == hex_lower(spec_hash_children(descs@)[k]@)
            },
            ResrcClass::Other => r@.len() == 0,
            ResrcClass::Unparsed => r@.len() == 0,
        },
{
    let mut r: Vec<AssetDependencyRelation> = Vec::new();
    let children: Vec<[u8; 20]> = match class {
        ResrcClass::Binary(descs) => crate::resrc::hash_children(descs),
        ResrcClass::Other => Vec::new(),
        ResrcClass::Unparsed => Vec::new(),
    };
    let mut k: usize = 0;
    while k < children.len()
        invariant
            k <= children@.len(),
            r@.len() == k,
            forall|j: int|
                0 <= j < k ==> (#[trigger] r@[j].dependent@) == hex_lower(parent@)
                    && r@[j].dependency@ == hex_lower(children@[j]@),
        decreases children@.len() - k,
    {
        let child = children[k];
        r.push(
            AssetDependencyRelation {
                dependent: hex_encode(parent.as_slice()),
                dependency: hex_encode(child.as_slice()),
            },
        );
        k += 1;
    }
    r
}

/// One resource prepared for import as an asset. Only its hash comes from
/// the archive; sizes, types and upload metadata are unknown here and blank,
/// and the uploader identity is assigned by the caller.
#[derive(Debug)]
pub struct GameAsset {
    pub asset_hash: String,
    pub upload_date: Timestamp,
    pub is_psp: bool,
    pub size_in_bytes: i64,
    pub _asset_type: i64,
    pub _asset_serialization_method: i64,
    pub dependencies: Vec<String>,
    pub as_mainline_icon_hash: Option<String>,
    pub as_mip_icon_hash: Option<String>,
    pub as_mainline_photo_hash: Option<String>,
}

impl GameAsset {
    /// The blank asset record for one resolved hash.
    pub fn for_hash(hash: &[u8; 20]) -> (a: GameAsset)
        ensures
            a.asset_hash@ == hex_lower(hash@),
            a.upload_date == (Timestamp { secs: 0, nanos: 0 }),
            !a.is_psp,
            a.size_in_bytes == 0,
            a._asset_type == 0,
            a._asset_serialization_method == 0,
            a.dependencies@.len() == 0,
            a.as_mainline_icon_hash matches Some(s) && s@ =~= Seq::<char>::empty(),
            a.as_mip_icon_hash matches Some(s) && s@ =~= Seq::<char>::empty(),
            a.as_mainline_photo_hash matches Some(s) && s@ =~= Seq::<char>::empty(),
    {
        GameAsset {
            asset_hash: hex_encode(hash.as_slice()),
            upload_date: Timestamp { secs: 0, nanos: 0 },
            is_psp: false,
            size_in_bytes: 0,
            _asset_type: 0,
            _asset_serialization_method: 0,
            dependencies: Vec::new(),
            as_mainline_icon_hash: Some(String::new()),
            as_mip_icon_hash: Some(String::new()),
            as_mainline_photo_hash: Some(String::new()),
        }
    }
}

/// One blank asset record per resolved hash, in order. The caller fills the
/// dependency lists from the relations and assigns uploader identities.
pub fn fetch_all_assets(hashes: &Vec<[u8; 20]>) -> (r: Vec<GameAsset>)
    ensures
        r@.len() == hashes@.len(),
        forall|i: int|
            0 <= i < r@.len() ==> (#[trigger] r@[i].asset_hash@) == hex_lower(hashes@[i]@)
                && r@[i].dependencies@.len() == 0,
{
    let mut r: Vec<GameAsset> = Vec::new();
    let mut i: usize = 0;
    while i < hashes.len()
        invariant
            i <= hashes@.len(),
            r@.len() == i,
            forall|j: int|
                0 <= j < i ==> (#[trigger] r@[j].asset_hash@) == hex_lower(hashes@[j]@)
                    && r@[j].dependencies@.len() == 0,
        decreases hashes@.len() - i,
    {
        let h = hashes[i];
        r.push(GameAsset::for_hash(&h));
        i += 1;
    }
    r
}

/// The views of a list of strings.
pub open spec fn str_views(s: Seq<String>) -> Seq<Seq<char>> {
    Seq::new(s.len(), |i: int| s[i]@)
}

/// The dependency hashes recorded for one dependent, in relation order.
pub open spec fn spec_deps_for(rels: Seq<AssetDependencyRelation>, h: Seq<char>) -> Seq<Seq<char>>
    decreases rels.len(),
{
    if rels.len() == 0 {
        seq![]
    } else {
        spec_deps_for(rels.drop_last(), h) + (if rels.last().dependent@ == h {
            seq![rels.last().dependency@]
        } else {
            seq![]
        })
    }
}

/// Collect the dependency hashes of one asset from the relation list: the
/// dependencies of every relation whose dependent is the asset's hash.
pub fn deps_for(relations: &Vec<AssetDependencyRelation>, hash: &String) -> (r: Vec<String>)
    ensures
        str_views(r@) == spec_deps_for(relations@, hash@),
{
    let mut r: Vec<String> = Vec::new();
    let mut i: usize = 0;
    while i < relations.len()
        invariant
            i <= relations@.len(),
            str_views(r@) == spec_deps_for(relations@.subrange(0, i as int), hash@),
        decreases relations@.len() - i,
    {
        proof {
            assert(relations@.subrange(0, i + 1).drop_last() =~= relations@.subrange(0, i as int));
            assert(relations@.subrange(0, i + 1).last() == relations@[i as int]);
        }
        if relations[i].dependent.eq(hash) {
            r.push(relations[i].dependency.clone());
        }
        proof {
            assert(str_views(r@) =~= spec_deps_for(relations@.subrange(0, i + 1), hash@));
        }
        i += 1;
    }
    proof {
        assert(relations@.subrange(0, relations@.len() as int) =~= relations@);
    }
    r
}

/// Everything one level's import carries: its users, the level itself, the
/// dependency relations among its resources, and one asset per resource.
#[derive(Debug)]
pub struct ImportData {
    pub users: Vec<GameUser>,
    pub levels: Vec<GameLevel>,
    pub relations: Vec<AssetDependencyRelation>,
    pub assets: Vec<GameAsset>,
}

} // verus!
