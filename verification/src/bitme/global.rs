//! From the name of a player to its region: tables that are the same for the
//! whole world.

use vstd::prelude::*;

use crate::decode::columns::{
    resolve_bitme_global_cols, resolve_player_state_cols, BitmeGlobalCols, PlayerStateCols,
    PLAYER_LOWERCASE_USERNAME_TABLE, PLAYER_STATE_TABLE, REGION_CONNECTION_INFO_TABLE, SIGNED_IN_PLAYER_TABLE,
    USER_REGION_STATE_TABLE, USER_STATE_TABLE, WORLD_REGION_NAME_TABLE,
};
use crate::cell::u64_in;
use crate::decode::rows::{
    decode_bitme_lowercase_username, decode_bitme_region_connection, decode_bitme_signed_in_player, decode_bitme_user,
    decode_bitme_user_region, decode_bitme_world_region_name, decode_player_state_with_fields, identity_hex,
    BitmeLowercaseUsernameRow, BitmeRegionConnectionRow, BitmeUserRegionRow, BitmeUserRow, BitmeWorldRegionNameRow,
    PlayerStateRow,
};
use crate::hex_text::{bytes_of_hex, hex_of, is_hex, law_hex_round_trip};
use crate::id_table::IdTable;
use crate::roads::apply::RowInput;
use crate::roads::join::known;
use crate::schema::{error, failed, plain_error, DecodeError, MirroredSchema, Problem};
use crate::text::{chars_of, same_text, text_of};
use crate::text_index::TextIndex;

verus! {

/// Columns of the global tables. A table that is not there resolves less.
#[derive(Debug, Clone, Copy)]
pub struct BitmeGlobalMeta {
    pub cols: BitmeGlobalCols,
    pub player_state_cols: Option<PlayerStateCols>,
}

/// Columns of no table.
pub open spec fn no_cols() -> BitmeGlobalCols {
    BitmeGlobalCols {
        lowercase_username: None,
        user_state: None,
        user_region: None,
        region_connection: None,
        world_region_name: None,
        signed_in_player: None,
    }
}

impl BitmeGlobalMeta {
    /// Finds the columns of the global tables. Where a table lacks a column,
    /// none of them is used.
    pub fn from_schema_global(schema: &MirroredSchema) -> (r: Self)
        ensures
            if BitmeGlobalCols::missing(*schema) is None {
                r.cols.found(*schema)
            } else {
                r.cols == no_cols()
            },
            match r.player_state_cols {
                Some(c) => c.found(*schema),
                None => PlayerStateCols::missing(*schema) is Some,
            },
    {
        let cols: BitmeGlobalCols = match resolve_bitme_global_cols(schema) {
            Ok(c) => c,
            Err(_) => BitmeGlobalCols::default(),
        };
        let player_state_cols: Option<PlayerStateCols> = match resolve_player_state_cols(schema) {
            Ok(c) => Some(c),
            Err(_) => None,
        };
        BitmeGlobalMeta { cols, player_state_cols }
    }
}

/// A row of a global table.
#[derive(Debug)]
pub enum BitmeGlobalRow {
    Username(BitmeLowercaseUsernameRow),
    User(BitmeUserRow),
    UserRegion(BitmeUserRegionRow),
    Connection(BitmeRegionConnectionRow),
    RegionName(BitmeWorldRegionNameRow),
    PlayerState(PlayerStateRow),
    SignedIn(u64),
    /// A row of a table that is not used or not there.
    Other,
}

/// What is known of players and regions.
#[verifier::ext_equal]
pub struct GlobalModel {
    pub ready: bool,
    pub entity_of: Map<Seq<char>, u64>,
    pub name_of: Map<u64, String>,
    pub identity_of: Map<u64, [u8; 32]>,
    /// Players by their identity in hexadecimal.
    pub entity_by_identity: Map<Seq<char>, u64>,
    /// Regions by the identity in hexadecimal.
    pub region_of: Map<Seq<char>, u64>,
    pub connection: Map<u64, (String, String)>,
    pub region_name: Map<u64, String>,
    pub signed_in: Map<u64, bool>,
}

/// An identity as it is written.
pub open spec fn written(identity: [u8; 32]) -> Seq<char> {
    hex_of(identity@.reverse())
}

impl GlobalModel {
    /// What is known before anything came.
    pub open spec fn unknown() -> GlobalModel {
        GlobalModel {
            ready: false,
            entity_of: Map::empty(),
            name_of: Map::empty(),
            identity_of: Map::empty(),
            entity_by_identity: Map::empty(),
            region_of: Map::empty(),
            connection: Map::empty(),
            region_name: Map::empty(),
            signed_in: Map::empty(),
        }
    }

    /// What is known after a row came.
    pub open spec fn with_row(self, row: BitmeGlobalRow) -> GlobalModel {
        match row {
            BitmeGlobalRow::Username(r) => GlobalModel {
                entity_of: self.entity_of.insert(r.username_lowercase@, r.entity_id),
                name_of: self.name_of.insert(r.entity_id, r.username_lowercase),
                ..self
            },
            BitmeGlobalRow::User(r) => GlobalModel {
                identity_of: self.identity_of.insert(r.entity_id, r.identity),
                entity_by_identity: self.entity_by_identity.insert(written(r.identity), r.entity_id),
                ..self
            },
            BitmeGlobalRow::UserRegion(r) => GlobalModel {
                region_of: self.region_of.insert(written(r.identity), r.region_id as u64),
                ..self
            },
            BitmeGlobalRow::Connection(r) => GlobalModel {
                connection: self.connection.insert(r.id as u64, (r.host, r.module)),
                ..self
            },
            BitmeGlobalRow::RegionName(r) => GlobalModel {
                region_name: self.region_name.insert(r.id as u64, r.player_facing_name),
                ..self
            },
            BitmeGlobalRow::PlayerState(r) => GlobalModel {
                signed_in: self.signed_in.insert(r.entity_id, r.signed_in),
                ..self
            },
            BitmeGlobalRow::SignedIn(e) => GlobalModel { signed_in: self.signed_in.insert(e, true), ..self },
            BitmeGlobalRow::Other => self,
        }
    }

    /// What is known after a row went.
    pub open spec fn without_row(self, row: BitmeGlobalRow) -> GlobalModel {
        match row {
            BitmeGlobalRow::Username(r) => GlobalModel {
                entity_of: self.entity_of.remove(r.username_lowercase@),
                name_of: self.name_of.remove(r.entity_id),
                ..self
            },
            BitmeGlobalRow::User(r) => GlobalModel {
                identity_of: self.identity_of.remove(r.entity_id),
                entity_by_identity: self.entity_by_identity.remove(written(r.identity)),
                ..self
            },
            BitmeGlobalRow::UserRegion(r) => GlobalModel {
                region_of: self.region_of.remove(written(r.identity)),
                ..self
            },
            BitmeGlobalRow::Connection(r) => GlobalModel { connection: self.connection.remove(r.id as u64), ..self },
            BitmeGlobalRow::RegionName(r) => GlobalModel {
                region_name: self.region_name.remove(r.id as u64),
                ..self
            },
            BitmeGlobalRow::PlayerState(r) => GlobalModel { signed_in: self.signed_in.remove(r.entity_id), ..self },
            BitmeGlobalRow::SignedIn(e) => GlobalModel { signed_in: self.signed_in.remove(e), ..self },
            BitmeGlobalRow::Other => self,
        }
    }

    /// The identity of a player.
    pub open spec fn identity(self, e: u64) -> Option<[u8; 32]> {
        known(self.identity_of, e)
    }

    /// The region of a player.
    pub open spec fn region(self, e: u64) -> Option<u64> {
        match self.identity(e) {
            Some(id) => if self.region_of.dom().contains(written(id)) {
                Some(self.region_of[written(id)])
            } else {
                None
            },
            None => None,
        }
    }
}

/// What a name leads to.
#[derive(Debug, Clone)]
pub struct ResolvedPlayer {
    pub entity_id: u64,
    pub username_lowercase: String,
    pub identity_hex: Option<String>,
    pub region_id: Option<u32>,
    pub region_name: Option<String>,
    pub host: String,
    pub module: String,
    pub signed_in: Option<bool>,
}

/// Whether an optional text is that of an optional string.
pub open spec fn same_name(a: Option<String>, b: Option<Seq<char>>) -> bool {
    match (a, b) {
        (Some(s), Some(t)) => s@ == t,
        (None, None) => true,
        _ => false,
    }
}

/// The text of an optional string.
pub open spec fn name_text(a: Option<String>) -> Option<Seq<char>> {
    match a {
        Some(s) => Some(s@),
        None => None,
    }
}

/// What a name leads to: each link that is missing stays out.
pub open spec fn resolves(m: GlobalModel, name: Seq<char>, p: ResolvedPlayer) -> bool {
    let e = m.entity_of[name];
    let region = m.region(e);
    let connection = match region {
        Some(r) => known(m.connection, r),
        None => None,
    };
    &&& p.entity_id == e
    &&& p.username_lowercase@ == match known(m.name_of, e) {
        Some(s) => s@,
        None => name,
    }
    &&& same_name(
        p.identity_hex,
        match m.identity(e) {
            Some(id) => Some(written(id)),
            None => None,
        },
    )
    &&& p.region_id == match region {
        Some(r) => Some(r as u32),
        None => None,
    }
    &&& same_name(
        p.region_name,
        match region {
            Some(r) => name_text(known(m.region_name, r)),
            None => None,
        },
    )
    &&& p.host@ == match connection {
        Some(c) => c.0@,
        None => Seq::empty(),
    }
    &&& p.module@ == match connection {
        Some(c) => c.1@,
        None => Seq::empty(),
    }
    &&& p.signed_in == known(m.signed_in, e)
}

/// Players, identities, regions.
pub struct BitmeGlobalStore {
    ready: bool,
    entity_by_lowercase: TextIndex,
    lowercase_by_entity: IdTable<String>,
    identity_by_entity: IdTable<[u8; 32]>,
    entity_by_identity: TextIndex,
    region_by_identity: TextIndex,
    conn_by_region: IdTable<(String, String)>,
    name_by_region: IdTable<String>,
    signed_in_by_entity: IdTable<bool>,
}

impl View for BitmeGlobalStore {
    type V = GlobalModel;

    closed spec fn view(&self) -> GlobalModel {
        GlobalModel {
            ready: self.ready,
            entity_of: self.entity_by_lowercase@,
            name_of: self.lowercase_by_entity@,
            identity_of: self.identity_by_entity@,
            entity_by_identity: self.entity_by_identity@,
            region_of: self.region_by_identity@,
            connection: self.conn_by_region@,
            region_name: self.name_by_region@,
            signed_in: self.signed_in_by_entity@,
        }
    }
}

/// How much is known.
#[derive(Debug, Clone, Copy, PartialEq, Eq, Structural)]
pub struct GlobalCounts {
    pub ready: bool,
    pub lowercase_usernames: usize,
    pub users: usize,
    pub user_regions: usize,
    pub region_connections: usize,
    pub region_names: usize,
    pub signed_in: usize,
}

impl BitmeGlobalStore {
    /// The tables are well formed.
    pub closed spec fn wf(&self) -> bool {
        &&& self.lowercase_by_entity.wf()
        &&& self.identity_by_entity.wf()
        &&& self.conn_by_region.wf()
        &&& self.name_by_region.wf()
        &&& self.signed_in_by_entity.wf()
    }

    /// A store that knows nothing.
    pub fn new() -> (r: Self)
        ensures
            r.wf(),
            r@ == GlobalModel::unknown(),
    {
        let r = BitmeGlobalStore {
            ready: false,
            entity_by_lowercase: TextIndex::new(),
            lowercase_by_entity: IdTable::new(),
            identity_by_entity: IdTable::new(),
            entity_by_identity: TextIndex::new(),
            region_by_identity: TextIndex::new(),
            conn_by_region: IdTable::new(),
            name_by_region: IdTable::new(),
            signed_in_by_entity: IdTable::new(),
        };
        proof {
            assert(r.entity_by_lowercase@ =~= Map::<Seq<char>, u64>::empty());
            assert(r.entity_by_identity@ =~= Map::<Seq<char>, u64>::empty());
            assert(r.region_by_identity@ =~= Map::<Seq<char>, u64>::empty());
            assert(r@ =~= GlobalModel::unknown());
        }
        r
    }

    /// The tables are complete from now on.
    pub fn mark_ready(&mut self)
        ensures
            final(self)@ == (GlobalModel { ready: true, ..old(self)@ }),
            old(self).wf() ==> final(self).wf(),
    {
        self.ready = true;
    }

    /// Whether the tables are complete.
    pub fn ready(&self) -> (r: bool)
        ensures
            r == self@.ready,
    {
        self.ready
    }

    /// Forgets everything.
    pub fn clear(&mut self)
        ensures
            final(self).wf(),
            final(self)@ == GlobalModel::unknown(),
    {
        *self = BitmeGlobalStore::new();
    }

    /// How much is known.
    pub fn counts(&self) -> (r: GlobalCounts)
        requires
            self.wf(),
        ensures
            r.ready == self@.ready,
            r.lowercase_usernames == self@.entity_of.dom().len(),
            r.users == self@.identity_of.dom().len(),
            r.user_regions == self@.region_of.dom().len(),
            r.region_connections == self@.connection.dom().len(),
            r.region_names == self@.region_name.dom().len(),
            r.signed_in == self@.signed_in.dom().len(),
    {
        GlobalCounts {
            ready: self.ready,
            lowercase_usernames: self.entity_by_lowercase.len(),
            users: self.identity_by_entity.len(),
            user_regions: self.region_by_identity.len(),
            region_connections: self.conn_by_region.len(),
            region_names: self.name_by_region.len(),
            signed_in: self.signed_in_by_entity.len(),
        }
    }

    /// A row came.
    pub fn insert_row(&mut self, row: BitmeGlobalRow)
        requires
            old(self).wf(),
        ensures
            final(self).wf(),
            final(self)@ == old(self)@.with_row(row),
    {
        match row {
            BitmeGlobalRow::Username(r) => {
                let name = text_of(chars_of(r.username_lowercase.as_str()).as_slice());
                let _ = self.entity_by_lowercase.insert(name, r.entity_id);
                let _ = self.lowercase_by_entity.insert(r.entity_id, r.username_lowercase);
            },
            BitmeGlobalRow::User(r) => {
                let _ = self.identity_by_entity.insert(r.entity_id, r.identity);
                let _ = self.entity_by_identity.insert(identity_hex(r.identity), r.entity_id);
            },
            BitmeGlobalRow::UserRegion(r) => {
                let _ = self.region_by_identity.insert(identity_hex(r.identity), r.region_id as u64);
            },
            BitmeGlobalRow::Connection(r) => {
                let _ = self.conn_by_region.insert(r.id as u64, (r.host, r.module));
            },
            BitmeGlobalRow::RegionName(r) => {
                let _ = self.name_by_region.insert(r.id as u64, r.player_facing_name);
            },
            BitmeGlobalRow::PlayerState(r) => {
                let _ = self.signed_in_by_entity.insert(r.entity_id, r.signed_in);
            },
            BitmeGlobalRow::SignedIn(e) => {
                let _ = self.signed_in_by_entity.insert(e, true);
            },
            BitmeGlobalRow::Other => {},
        }
    }

    /// A row went.
    pub fn delete_row(&mut self, row: &BitmeGlobalRow)
        requires
            old(self).wf(),
        ensures
            final(self).wf(),
            final(self)@ == old(self)@.without_row(*row),
    {
        match row {
            BitmeGlobalRow::Username(r) => {
                let _ = self.entity_by_lowercase.remove(r.username_lowercase.as_str());
                let _ = self.lowercase_by_entity.remove(r.entity_id);
            },
            BitmeGlobalRow::User(r) => {
                let _ = self.identity_by_entity.remove(r.entity_id);
                let _ = self.entity_by_identity.remove(identity_hex(r.identity).as_str());
            },
            BitmeGlobalRow::UserRegion(r) => {
                let _ = self.region_by_identity.remove(identity_hex(r.identity).as_str());
            },
            BitmeGlobalRow::Connection(r) => {
                let _ = self.conn_by_region.remove(r.id as u64);
            },
            BitmeGlobalRow::RegionName(r) => {
                let _ = self.name_by_region.remove(r.id as u64);
            },
            BitmeGlobalRow::PlayerState(r) => {
                let _ = self.signed_in_by_entity.remove(r.entity_id);
            },
            BitmeGlobalRow::SignedIn(e) => {
                let _ = self.signed_in_by_entity.remove(*e);
            },
            BitmeGlobalRow::Other => {},
        }
    }

    /// Name, host and module of a region.
    pub fn region_info(&self, region_id: u32) -> (r: (Option<String>, Option<String>, Option<String>))
        requires
            self.wf(),
        ensures
            ({
                let connection = known(self@.connection, (region_id % 0x100) as u64);
                &&& same_name(r.0, name_text(known(self@.region_name, (region_id % 0x1_0000) as u64)))
                &&& same_name(
                    r.1,
                    match connection {
                        Some(c) => Some(c.0@),
                        None => None,
                    },
                )
                &&& same_name(
                    r.2,
                    match connection {
                        Some(c) => Some(c.1@),
                        None => None,
                    },
                )
            }),
    {
        let name: Option<String> = match self.name_by_region.get((region_id % 0x1_0000) as u64) {
            Some(s) => Some(s.clone()),
            None => None,
        };
        match self.conn_by_region.get((region_id % 0x100) as u64) {
            Some(c) => (name, Some(c.0.clone()), Some(c.1.clone())),
            None => (name, None, None),
        }
    }

    /// What a name in lower case leads to. Only the whole name counts.
    pub fn resolve(&self, name_lowercase: &str) -> (r: Option<ResolvedPlayer>)
        requires
            self.wf(),
        ensures
            match r {
                Some(p) => self@.entity_of.dom().contains(name_lowercase@) && resolves(self@, name_lowercase@, p),
                None => !self@.entity_of.dom().contains(name_lowercase@),
            },
    {
        let entity_id: u64 = match self.entity_by_lowercase.get(name_lowercase) {
            Some(e) => e,
            None => {
                return None;
            },
        };
        let identity_text: Option<String> = match self.identity_by_entity.get(entity_id) {
            Some(id) => Some(identity_hex(*id)),
            None => None,
        };
        let region: Option<u64> = match &identity_text {
            Some(id) => self.region_by_identity.get(id.as_str()),
            None => None,
        };
        let (host, module): (String, String) = match region {
            Some(r) => match self.conn_by_region.get(r) {
                Some(c) => (c.0.clone(), c.1.clone()),
                None => (String::new(), String::new()),
            },
            None => (String::new(), String::new()),
        };
        let region_name: Option<String> = match region {
            Some(r) => match self.name_by_region.get(r) {
                Some(s) => Some(s.clone()),
                None => None,
            },
            None => None,
        };
        let username_lowercase: String = match self.lowercase_by_entity.get(entity_id) {
            Some(s) => s.clone(),
            None => text_of(chars_of(name_lowercase).as_slice()),
        };
        let signed_in: Option<bool> = match self.signed_in_by_entity.get(entity_id) {
            Some(b) => Some(*b),
            None => None,
        };
        let region_id: Option<u32> = match region {
            Some(r) => Some(r as u32),
            None => None,
        };
        Some(
            ResolvedPlayer {
                entity_id,
                username_lowercase,
                identity_hex: identity_text,
                region_id,
                region_name,
                host,
                module,
                signed_in,
            },
        )
    }
}

/// What a row of a table says.
pub open spec fn reads_bitme(meta: BitmeGlobalMeta, table: Seq<char>, input: RowInput, row: BitmeGlobalRow) -> bool {
    if table == PLAYER_LOWERCASE_USERNAME_TABLE@ {
        match meta.cols.lowercase_username {
            None => row is Other,
            Some(cols) => row matches BitmeGlobalRow::Username(r) && input.cells matches Some(c) && r.reads(c@, cols),
        }
    } else if table == USER_STATE_TABLE@ {
        match meta.cols.user_state {
            None => row is Other,
            Some(cols) => row matches BitmeGlobalRow::User(r) && input.cells matches Some(c) && r.reads(c@, cols),
        }
    } else if table == USER_REGION_STATE_TABLE@ {
        match meta.cols.user_region {
            None => row is Other,
            Some(cols) => row matches BitmeGlobalRow::UserRegion(r) && input.cells matches Some(c) && r.reads(c@, cols),
        }
    } else if table == REGION_CONNECTION_INFO_TABLE@ {
        match meta.cols.region_connection {
            None => row is Other,
            Some(cols) => row matches BitmeGlobalRow::Connection(r) && input.cells matches Some(c) && r.reads(c@, cols),
        }
    } else if table == WORLD_REGION_NAME_TABLE@ {
        match meta.cols.world_region_name {
            None => row is Other,
            Some(cols) => row matches BitmeGlobalRow::RegionName(r) && input.cells matches Some(c) && r.reads(c@, cols),
        }
    } else if table == PLAYER_STATE_TABLE@ {
        match meta.player_state_cols {
            None => row is Other,
            Some(cols) => row matches BitmeGlobalRow::PlayerState(r) && input.cells matches Some(c) && r.reads(c@, cols),
        }
    } else if table == SIGNED_IN_PLAYER_TABLE@ {
        match meta.cols.signed_in_player {
            None => row is Other,
            Some(col) => row matches BitmeGlobalRow::SignedIn(e) && input.cells matches Some(c) && u64_in(
                c@[col as int],
                "signed_in_player.entity_id",
            ) == Ok::<u64, DecodeError>(e),
        }
    } else {
        row is Other
    }
}

/// Why a row of a table cannot be read.
pub open spec fn bitme_error(meta: BitmeGlobalMeta, table: Seq<char>, input: RowInput) -> Option<DecodeError> {
    if table == PLAYER_LOWERCASE_USERNAME_TABLE@ {
        match (meta.cols.lowercase_username, input.cells) {
            (None, _) => None,
            (Some(_), None) => Some(plain_error(PLAYER_LOWERCASE_USERNAME_TABLE, Problem::Unreadable)),
            (Some(cols), Some(c)) => BitmeLowercaseUsernameRow::error(c@, cols),
        }
    } else if table == USER_STATE_TABLE@ {
        match (meta.cols.user_state, input.cells) {
            (None, _) => None,
            (Some(_), None) => Some(plain_error(USER_STATE_TABLE, Problem::Unreadable)),
            (Some(cols), Some(c)) => BitmeUserRow::error(c@, cols),
        }
    } else if table == USER_REGION_STATE_TABLE@ {
        match (meta.cols.user_region, input.cells) {
            (None, _) => None,
            (Some(_), None) => Some(plain_error(USER_REGION_STATE_TABLE, Problem::Unreadable)),
            (Some(cols), Some(c)) => BitmeUserRegionRow::error(c@, cols),
        }
    } else if table == REGION_CONNECTION_INFO_TABLE@ {
        match (meta.cols.region_connection, input.cells) {
            (None, _) => None,
            (Some(_), None) => Some(plain_error(REGION_CONNECTION_INFO_TABLE, Problem::Unreadable)),
            (Some(cols), Some(c)) => BitmeRegionConnectionRow::error(c@, cols),
        }
    } else if table == WORLD_REGION_NAME_TABLE@ {
        match (meta.cols.world_region_name, input.cells) {
            (None, _) => None,
            (Some(_), None) => Some(plain_error(WORLD_REGION_NAME_TABLE, Problem::Unreadable)),
            (Some(cols), Some(c)) => BitmeWorldRegionNameRow::error(c@, cols),
        }
    } else if table == PLAYER_STATE_TABLE@ {
        match (meta.player_state_cols, input.cells) {
            (None, _) => None,
            (Some(_), None) => Some(plain_error(PLAYER_STATE_TABLE, Problem::Unreadable)),
            (Some(cols), Some(c)) => PlayerStateRow::error(c@, cols),
        }
    } else if table == SIGNED_IN_PLAYER_TABLE@ {
        match (meta.cols.signed_in_player, input.cells) {
            (None, _) => None,
            (Some(_), None) => Some(plain_error(SIGNED_IN_PLAYER_TABLE, Problem::Unreadable)),
            (Some(col), Some(c)) => failed(u64_in(c@[col as int], "signed_in_player.entity_id")),
        }
    } else {
        None
    }
}

/// Whether a row has the columns of its table.
pub open spec fn bitme_fits(meta: BitmeGlobalMeta, table: Seq<char>, input: RowInput) -> bool {
    match input.cells {
        None => true,
        Some(c) => if table == PLAYER_LOWERCASE_USERNAME_TABLE@ {
            meta.cols.lowercase_username matches Some(cols) ==> cols.0 < c@.len() && cols.1 < c@.len()
        } else if table == USER_STATE_TABLE@ {
            meta.cols.user_state matches Some(cols) ==> cols.0 < c@.len() && cols.1 < c@.len()
        } else if table == USER_REGION_STATE_TABLE@ {
            meta.cols.user_region matches Some(cols) ==> cols.0 < c@.len() && cols.1 < c@.len()
        } else if table == REGION_CONNECTION_INFO_TABLE@ {
            meta.cols.region_connection matches Some(cols) ==> cols.0 < c@.len() && cols.1 < c@.len() && cols.2 < c@.len()
        } else if table == WORLD_REGION_NAME_TABLE@ {
            meta.cols.world_region_name matches Some(cols) ==> cols.0 < c@.len() && cols.1 < c@.len()
        } else if table == PLAYER_STATE_TABLE@ {
            meta.player_state_cols matches Some(cols) ==> cols.fit(c@.len())
        } else if table == SIGNED_IN_PLAYER_TABLE@ {
            meta.cols.signed_in_player matches Some(col) ==> col < c@.len()
        } else {
            true
        },
    }
}

/// Reads a row of a table.
pub fn decode_bitme_row(meta: &BitmeGlobalMeta, table: &str, input: &RowInput) -> (r: Result<BitmeGlobalRow, DecodeError>)
    requires
        bitme_fits(*meta, table@, *input),
    ensures
        match r {
            Ok(row) => reads_bitme(*meta, table@, *input, row) && bitme_error(*meta, table@, *input) is None,
            Err(e) => bitme_error(*meta, table@, *input) == Some(e),
        },
{
    if same_text(table, PLAYER_LOWERCASE_USERNAME_TABLE) {
        return match (&meta.cols.lowercase_username, &input.cells) {
            (None, _) => Ok(BitmeGlobalRow::Other),
            (Some(_), None) => Err(error(PLAYER_LOWERCASE_USERNAME_TABLE, Problem::Unreadable)),
            (Some(cols), Some(c)) => match decode_bitme_lowercase_username(c.as_slice(), *cols) {
                Ok(r) => Ok(BitmeGlobalRow::Username(r)),
                Err(e) => Err(e),
            },
        };
    }
    if same_text(table, USER_STATE_TABLE) {
        return match (&meta.cols.user_state, &input.cells) {
            (None, _) => Ok(BitmeGlobalRow::Other),
            (Some(_), None) => Err(error(USER_STATE_TABLE, Problem::Unreadable)),
            (Some(cols), Some(c)) => match decode_bitme_user(c.as_slice(), *cols) {
                Ok(r) => Ok(BitmeGlobalRow::User(r)),
                Err(e) => Err(e),
            },
        };
    }
    if same_text(table, USER_REGION_STATE_TABLE) {
        return match (&meta.cols.user_region, &input.cells) {
            (None, _) => Ok(BitmeGlobalRow::Other),
            (Some(_), None) => Err(error(USER_REGION_STATE_TABLE, Problem::Unreadable)),
            (Some(cols), Some(c)) => match decode_bitme_user_region(c.as_slice(), *cols) {
                Ok(r) => Ok(BitmeGlobalRow::UserRegion(r)),
                Err(e) => Err(e),
            },
        };
    }
    if same_text(table, REGION_CONNECTION_INFO_TABLE) {
        return match (&meta.cols.region_connection, &input.cells) {
            (None, _) => Ok(BitmeGlobalRow::Other),
            (Some(_), None) => Err(error(REGION_CONNECTION_INFO_TABLE, Problem::Unreadable)),
            (Some(cols), Some(c)) => match decode_bitme_region_connection(c.as_slice(), *cols) {
                Ok(r) => Ok(BitmeGlobalRow::Connection(r)),
                Err(e) => Err(e),
            },
        };
    }
    if same_text(table, WORLD_REGION_NAME_TABLE) {
        return match (&meta.cols.world_region_name, &input.cells) {
            (None, _) => Ok(BitmeGlobalRow::Other),
            (Some(_), None) => Err(error(WORLD_REGION_NAME_TABLE, Problem::Unreadable)),
            (Some(cols), Some(c)) => match decode_bitme_world_region_name(c.as_slice(), *cols) {
                Ok(r) => Ok(BitmeGlobalRow::RegionName(r)),
                Err(e) => Err(e),
            },
        };
    }
    if same_text(table, PLAYER_STATE_TABLE) {
        return match (&meta.player_state_cols, &input.cells) {
            (None, _) => Ok(BitmeGlobalRow::Other),
            (Some(_), None) => Err(error(PLAYER_STATE_TABLE, Problem::Unreadable)),
            (Some(cols), Some(c)) => match decode_player_state_with_fields(c.as_slice(), *cols) {
                Ok(r) => Ok(BitmeGlobalRow::PlayerState(r)),
                Err(e) => Err(e),
            },
        };
    }
    if same_text(table, SIGNED_IN_PLAYER_TABLE) {
        return match (&meta.cols.signed_in_player, &input.cells) {
            (None, _) => Ok(BitmeGlobalRow::Other),
            (Some(_), None) => Err(error(SIGNED_IN_PLAYER_TABLE, Problem::Unreadable)),
            (Some(col), Some(c)) => match decode_bitme_signed_in_player(c.as_slice(), *col) {
                Ok(e) => Ok(BitmeGlobalRow::SignedIn(e)),
                Err(e) => Err(e),
            },
        };
    }
    Ok(BitmeGlobalRow::Other)
}

impl BitmeGlobalStore {
    /// A row of a table came. A row that cannot be read changes nothing.
    pub fn apply_insert(&mut self, meta: &BitmeGlobalMeta, table: &str, input: &RowInput) -> (r: Result<(), DecodeError>)
        requires
            old(self).wf(),
            bitme_fits(*meta, table@, *input),
        ensures
            final(self).wf(),
            match r {
                Ok(_) => bitme_error(*meta, table@, *input) is None && exists|row: BitmeGlobalRow|
                    reads_bitme(*meta, table@, *input, row) && final(self)@ == #[trigger] old(self)@.with_row(row),
                Err(e) => bitme_error(*meta, table@, *input) == Some(e) && final(self)@ == old(self)@,
            },
    {
        let row = decode_bitme_row(meta, table, input)?;
        self.insert_row(row);
        Ok(())
    }

    /// A row of a table went. A row that cannot be read changes nothing.
    pub fn apply_delete(&mut self, meta: &BitmeGlobalMeta, table: &str, input: &RowInput) -> (r: Result<(), DecodeError>)
        requires
            old(self).wf(),
            bitme_fits(*meta, table@, *input),
        ensures
            final(self).wf(),
            match r {
                Ok(_) => bitme_error(*meta, table@, *input) is None && exists|row: BitmeGlobalRow|
                    reads_bitme(*meta, table@, *input, row) && final(self)@ == #[trigger] old(self)@.without_row(row),
                Err(e) => bitme_error(*meta, table@, *input) == Some(e) && final(self)@ == old(self)@,
            },
    {
        let row = decode_bitme_row(meta, table, input)?;
        self.delete_row(&row);
        Ok(())
    }
}

/// Whether a row went, if one did; a row that cannot be read changes nothing.
pub open spec fn row_gone(
    before: GlobalModel,
    after: GlobalModel,
    meta: BitmeGlobalMeta,
    table: Seq<char>,
    input: Option<RowInput>,
) -> bool {
    match input {
        Some(i) => {
            ||| after == before && bitme_error(meta, table, i) is Some
            ||| exists|row: BitmeGlobalRow| reads_bitme(meta, table, i, row) && after == #[trigger] before.without_row(row)
        },
        None => after == before,
    }
}

/// Whether a row came, if one did; a row that cannot be read changes nothing.
pub open spec fn row_came(
    before: GlobalModel,
    after: GlobalModel,
    meta: BitmeGlobalMeta,
    table: Seq<char>,
    input: Option<RowInput>,
) -> bool {
    match input {
        Some(i) => {
            ||| after == before && bitme_error(meta, table, i) is Some
            ||| exists|row: BitmeGlobalRow| reads_bitme(meta, table, i, row) && after == #[trigger] before.with_row(row)
        },
        None => after == before,
    }
}

/// The row behind an optional reference.
pub open spec fn given_row(input: Option<&RowInput>) -> Option<RowInput> {
    match input {
        Some(i) => Some(*i),
        None => None,
    }
}

impl BitmeGlobalStore {
    /// A row of a table changed: what it was goes before what it is comes.
    pub fn apply_global(&mut self, meta: &BitmeGlobalMeta, table: &str, insert: Option<&RowInput>, delete: Option<&RowInput>)
        requires
            old(self).wf(),
            insert matches Some(i) ==> bitme_fits(*meta, table@, *i),
            delete matches Some(i) ==> bitme_fits(*meta, table@, *i),
        ensures
            final(self).wf(),
            exists|middle: GlobalModel| #[trigger]
                row_gone(old(self)@, middle, *meta, table@, given_row(delete)) && row_came(
                    middle,
                    final(self)@,
                    *meta,
                    table@,
                    given_row(insert),
                ),
    {
        if let Some(row) = delete {
            let _ = self.apply_delete(meta, table, row);
        }
        let ghost middle = self@;
        assert(row_gone(old(self)@, middle, *meta, table@, given_row(delete)));
        if let Some(row) = insert {
            let _ = self.apply_insert(meta, table, row);
        }
        assert(row_came(middle, self@, *meta, table@, given_row(insert)));
    }
}

/// A name that came leads to its player until it goes.
pub proof fn law_name_leads_to_player(m: GlobalModel, r: BitmeLowercaseUsernameRow)
    ensures
        ({
            let with = m.with_row(BitmeGlobalRow::Username(r));
            &&& with.entity_of.dom().contains(r.username_lowercase@)
            &&& with.entity_of[r.username_lowercase@] == r.entity_id
            &&& known(with.name_of, r.entity_id) == Some(r.username_lowercase)
            &&& !with.without_row(BitmeGlobalRow::Username(r)).entity_of.dom().contains(r.username_lowercase@)
        }),
{
}

/// The region of a player comes from its identity, whichever of the two rows
/// came first.
pub proof fn law_region_comes_through_identity(m: GlobalModel, u: BitmeUserRow, g: BitmeUserRegionRow)
    requires
        u.identity@ == g.identity@,
    ensures
        m.with_row(BitmeGlobalRow::User(u)).with_row(BitmeGlobalRow::UserRegion(g)).region(u.entity_id) == Some(
            g.region_id as u64,
        ),
        m.with_row(BitmeGlobalRow::UserRegion(g)).with_row(BitmeGlobalRow::User(u)) == m.with_row(
            BitmeGlobalRow::User(u),
        ).with_row(BitmeGlobalRow::UserRegion(g)),
{
}

/// The digits of an identity, read as bytes, are its bytes from the last to the
/// first.
pub proof fn law_identities_are_written_last_byte_first(identity: [u8; 32], i: int)
    requires
        0 <= i < 32,
    ensures
        written(identity).len() == 64,
        is_hex(written(identity)),
        bytes_of_hex(written(identity))[i] == identity@[31 - i],
{
    law_hex_round_trip(identity@.reverse());
}

/// A row that came is what is known of its player, identity or region; once it
/// went, nothing is. What is known of others stays.
pub proof fn law_rows_are_known_until_they_go(m: GlobalModel, row: BitmeGlobalRow, other: u64, text: Seq<char>)
    ensures
        ({
            let came = m.with_row(row);
            let gone = m.without_row(row);
            match row {
                BitmeGlobalRow::Username(r) => {
                    &&& came.entity_of.dom().contains(r.username_lowercase@) && came.entity_of[r.username_lowercase@]
                        == r.entity_id
                    &&& !gone.entity_of.dom().contains(r.username_lowercase@)
                    &&& !gone.name_of.dom().contains(r.entity_id)
                    &&& text != r.username_lowercase@ ==> (came.entity_of.dom().contains(text)
                        <==> m.entity_of.dom().contains(text)) && (gone.entity_of.dom().contains(text)
                        <==> m.entity_of.dom().contains(text))
                },
                BitmeGlobalRow::User(r) => {
                    &&& came.identity_of.dom().contains(r.entity_id) && came.identity_of[r.entity_id] == r.identity
                    &&& came.entity_by_identity.dom().contains(written(r.identity)) && came.entity_by_identity[written(
                        r.identity,
                    )] == r.entity_id
                    &&& !gone.identity_of.dom().contains(r.entity_id)
                    &&& !gone.entity_by_identity.dom().contains(written(r.identity))
                    &&& other != r.entity_id ==> known(came.identity_of, other) == known(m.identity_of, other) && known(
                        gone.identity_of,
                        other,
                    ) == known(m.identity_of, other)
                },
                BitmeGlobalRow::UserRegion(r) => {
                    &&& came.region_of.dom().contains(written(r.identity)) && came.region_of[written(r.identity)]
                        == r.region_id
                    &&& !gone.region_of.dom().contains(written(r.identity))
                },
                BitmeGlobalRow::Connection(r) => {
                    &&& came.connection.dom().contains(r.id as u64) && came.connection[r.id as u64].0@ == r.host@
                        && came.connection[r.id as u64].1@ == r.module@
                    &&& !gone.connection.dom().contains(r.id as u64)
                    &&& other != r.id ==> known(came.connection, other) == known(m.connection, other) && known(
                        gone.connection,
                        other,
                    ) == known(m.connection, other)
                },
                BitmeGlobalRow::RegionName(r) => {
                    &&& came.region_name.dom().contains(r.id as u64) && came.region_name[r.id as u64]@
                        == r.player_facing_name@
                    &&& !gone.region_name.dom().contains(r.id as u64)
                    &&& other != r.id ==> known(came.region_name, other) == known(m.region_name, other) && known(
                        gone.region_name,
                        other,
                    ) == known(m.region_name, other)
                },
                BitmeGlobalRow::PlayerState(r) => {
                    &&& known(came.signed_in, r.entity_id) == Some(r.signed_in)
                    &&& !gone.signed_in.dom().contains(r.entity_id)
                    &&& other != r.entity_id ==> known(came.signed_in, other) == known(m.signed_in, other) && known(
                        gone.signed_in,
                        other,
                    ) == known(m.signed_in, other)
                },
                BitmeGlobalRow::SignedIn(e) => {
                    &&& known(came.signed_in, e) == Some(true)
                    &&& !gone.signed_in.dom().contains(e)
                    &&& other != e ==> known(came.signed_in, other) == known(m.signed_in, other) && known(
                        gone.signed_in,
                        other,
                    ) == known(m.signed_in, other)
                },
                BitmeGlobalRow::Other => came == m && gone == m,
            }
        }),
        !(row is Username) ==> m.with_row(row).entity_of == m.entity_of && m.without_row(row).entity_of == m.entity_of,
        !(row is UserRegion) ==> m.with_row(row).region_of == m.region_of && m.without_row(row).region_of == m.region_of,
        m.with_row(row).ready == m.ready && m.without_row(row).ready == m.ready,
{
}

/// A name leads to its player, and from there through the identity of the player
/// to the region, and from there to the name, the host and the module of the
/// region. Where a link is missing, what lies behind it is left out.
pub proof fn law_a_name_is_followed_link_by_link(m: GlobalModel, name: Seq<char>, p: ResolvedPlayer, region: u32)
    requires
        resolves(m, name, p),
    ensures
        p.entity_id == m.entity_of[name],
        p.signed_in is Some <==> m.signed_in.dom().contains(p.entity_id),
        p.signed_in matches Some(b) ==> b == m.signed_in[p.entity_id],
        p.identity_hex is Some <==> m.identity_of.dom().contains(p.entity_id),
        p.identity_hex matches Some(t) ==> t@ == written(m.identity_of[p.entity_id]),
        !m.identity_of.dom().contains(p.entity_id) ==> p.region_id is None && p.region_name is None && p.host@.len() == 0
            && p.module@.len() == 0,
        m.identity_of.dom().contains(p.entity_id) && m.region_of.dom().contains(written(m.identity_of[p.entity_id]))
            && m.region_of[written(m.identity_of[p.entity_id])] == region ==> {
            &&& p.region_id == Some(region)
            &&& m.region_name.dom().contains(region as u64) ==> (p.region_name matches Some(t) && t@
                == m.region_name[region as u64]@)
            &&& !m.region_name.dom().contains(region as u64) ==> p.region_name is None
            &&& m.connection.dom().contains(region as u64) ==> p.host@ == m.connection[region as u64].0@ && p.module@
                == m.connection[region as u64].1@
            &&& !m.connection.dom().contains(region as u64) ==> p.host@.len() == 0 && p.module@.len() == 0
        },
{
}

/// A row of the whole world is read by the table it stands in, where its columns
/// are known, and is nothing in any other.
pub proof fn law_world_rows_are_read_by_their_table(
    meta: BitmeGlobalMeta,
    table: Seq<char>,
    input: RowInput,
    row: BitmeGlobalRow,
)
    requires
        reads_bitme(meta, table, input, row),
    ensures
        row is Username <==> table == "player_lowercase_username_state"@ && meta.cols.lowercase_username is Some,
        row is User <==> table == "user_state"@ && meta.cols.user_state is Some,
        row is UserRegion <==> table == "user_region_state"@ && meta.cols.user_region is Some,
        row is Connection <==> table == "region_connection_info"@ && meta.cols.region_connection is Some,
        row is RegionName <==> table == "world_region_name_state"@ && meta.cols.world_region_name is Some,
        row is PlayerState <==> table == "player_state"@ && meta.player_state_cols is Some,
        row is SignedIn <==> table == "signed_in_player_state"@ && meta.cols.signed_in_player is Some,
{
    reveal_strlit("player_lowercase_username_state");
    reveal_strlit("user_state");
    reveal_strlit("user_region_state");
    reveal_strlit("region_connection_info");
    reveal_strlit("world_region_name_state");
    reveal_strlit("player_state");
    reveal_strlit("signed_in_player_state");
    assert("player_lowercase_username_state"@.len() == 31);
    assert("user_state"@.len() == 10);
    assert("user_region_state"@.len() == 17);
    assert("region_connection_info"@.len() == 22);
    assert("world_region_name_state"@.len() == 23);
    assert("player_state"@.len() == 12);
    assert("signed_in_player_state"@.len() == 22);
    assert("region_connection_info"@[0] != "signed_in_player_state"@[0]);
}

} // verus!
