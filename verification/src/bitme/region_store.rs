//! The rows of a region that sessions are answered from, and where a player
//! is found among the regions.

use vstd::prelude::*;

use crate::cell::{BuffEntry, Single};
use crate::decode::rows::{
    CharacterStatDescRow, ClaimMemberRow, ClaimRow, MobileEntityRow, PlayerActionRow, ResourceDescRow, StaminaRow, OVERWORLD_DIMENSION,
};
use crate::id_table::{key32, key_of_i32, IdTable};
use crate::int_math::div_floor;
use crate::roads::join::known;
use crate::text::same_text;

verus! {

/// Milli-units along the side of a tile.
pub const MILLI_PER_TILE: i64 = 1000;

/// The rows of a region, by the id that each table is asked for.
pub struct RegionStore {
    pub region: u32,
    /// Whether the rows are all there.
    pub ready: bool,
    pub player_username: IdTable<String>,
    /// Whether a player is signed in.
    pub player_state: IdTable<bool>,
    pub mobile_entity: IdTable<MobileEntityRow>,
    pub stamina: IdTable<StaminaRow>,
    pub active_buff: IdTable<Vec<BuffEntry>>,
    pub character_stat_desc: Vec<CharacterStatDescRow>,
    pub character_stats: IdTable<Vec<Single>>,
    /// The actions of a player.
    pub player_action: IdTable<Vec<PlayerActionRow>>,
    /// Resource types of entities.
    pub resource: IdTable<i32>,
    /// Descriptions by the key of the resource type.
    pub resource_desc: IdTable<ResourceDescRow>,
    /// Resource types by the key of the recipe that extracts them.
    pub extraction_recipe: IdTable<i32>,
    /// When a growing entity changes next, in Unix microseconds.
    pub growth_timer: IdTable<Option<i64>>,
    /// When a growing entity changes next, as older rows tell it.
    pub growth: IdTable<i64>,
    pub claim: IdTable<ClaimRow>,
    pub claim_member: IdTable<ClaimMemberRow>,
}

/// Player and claim of a membership.
pub open spec fn pair_in(row: ClaimMemberRow) -> (u64, u64) {
    (row.player_entity_id, row.claim_entity_id)
}

/// Tile of a place in milli-units.
pub open spec fn tile_of(milli: int) -> int {
    milli / (MILLI_PER_TILE as int)
}

/// Tile of a row, where it is in the overworld.
pub open spec fn overworld_place(row: MobileEntityRow) -> Option<(i32, i32)> {
    if row.dimension == OVERWORLD_DIMENSION {
        Some((tile_of(row.location_x as int) as i32, tile_of(row.location_z as int) as i32))
    } else {
        None
    }
}

/// Position of the first stat with a name, from `i` on.
pub open spec fn stat_from(s: Seq<CharacterStatDescRow>, name: Seq<char>, i: int) -> Option<int>
    decreases s.len() - i,
{
    if i < 0 || i >= s.len() {
        None
    } else if s[i].name@ == name {
        Some(i)
    } else {
        stat_from(s, name, i + 1)
    }
}

impl RegionStore {
    /// Every table is well formed.
    pub open spec fn wf(&self) -> bool {
        &&& self.player_username.wf()
        &&& self.player_state.wf()
        &&& self.mobile_entity.wf()
        &&& self.stamina.wf()
        &&& self.active_buff.wf()
        &&& self.character_stats.wf()
        &&& self.player_action.wf()
        &&& self.resource.wf()
        &&& self.resource_desc.wf()
        &&& self.extraction_recipe.wf()
        &&& self.growth_timer.wf()
        &&& self.growth.wf()
        &&& self.claim.wf()
        &&& self.claim_member.wf()
    }

    /// The memberships that the rows tell: player and claim of each.
    pub open spec fn member_pairs(&self) -> Seq<(u64, u64)> {
        self.claim_member.ids().map_values(|id: u64| pair_in(self.claim_member@[id]))
    }

    /// The tile of an entity in the overworld.
    pub open spec fn tile(&self, entity: u64) -> Option<(i32, i32)> {
        match known(self.mobile_entity@, entity) {
            Some(row) => overworld_place(row),
            None => None,
        }
    }

    /// Whether a player has rows that are there whether or not they play.
    pub open spec fn is_home(&self, player: u64) -> bool {
        self.player_username@.dom().contains(player) || self.player_state@.dom().contains(player)
    }

    /// The description of a resource type.
    pub open spec fn desc(&self, resource_id: i32) -> Option<ResourceDescRow> {
        known(self.resource_desc@, key32(resource_id as int))
    }

    /// Unix milliseconds at which an entity changes next: the timer of the
    /// entity counts before the older rows.
    pub open spec fn growth_end(&self, entity: u64) -> Option<i64> {
        let micros = match known(self.growth_timer@, entity) {
            Some(Some(m)) => Some(m),
            _ => known(self.growth@, entity),
        };
        match micros {
            Some(m) => Some((m as int / 1000) as i64),
            None => None,
        }
    }

    /// Value of the stat with a name.
    pub open spec fn stat(&self, entity: u64, name: Seq<char>) -> Option<Single> {
        match (stat_from(self.character_stat_desc@, name, 0), known(self.character_stats@, entity)) {
            (Some(i), Some(values)) => {
                let n = self.character_stat_desc@[i].stat_type;
                if 0 <= n < values@.len() {
                    Some(values@[n as int])
                } else {
                    None
                }
            },
            _ => None,
        }
    }

    /// A region without rows.
    pub fn empty(region: u32) -> (r: Self)
        ensures
            r.wf(),
            r.region == region,
            !r.ready,
            r.player_username@ == Map::<u64, String>::empty(),
            r.player_state@ == Map::<u64, bool>::empty(),
            r.mobile_entity@ == Map::<u64, MobileEntityRow>::empty(),
            r.stamina@ == Map::<u64, StaminaRow>::empty(),
            r.active_buff@ == Map::<u64, Vec<BuffEntry>>::empty(),
            r.character_stat_desc@ == Seq::<CharacterStatDescRow>::empty(),
            r.character_stats@ == Map::<u64, Vec<Single>>::empty(),
            r.player_action@ == Map::<u64, Vec<PlayerActionRow>>::empty(),
            r.resource@ == Map::<u64, i32>::empty(),
            r.resource_desc@ == Map::<u64, ResourceDescRow>::empty(),
            r.extraction_recipe@ == Map::<u64, i32>::empty(),
            r.growth_timer@ == Map::<u64, Option<i64>>::empty(),
            r.growth@ == Map::<u64, i64>::empty(),
            r.claim@ == Map::<u64, ClaimRow>::empty(),
            r.claim_member@ == Map::<u64, ClaimMemberRow>::empty(),
    {
        RegionStore {
            region,
            ready: false,
            player_username: IdTable::new(),
            player_state: IdTable::new(),
            mobile_entity: IdTable::new(),
            stamina: IdTable::new(),
            active_buff: IdTable::new(),
            character_stat_desc: Vec::new(),
            character_stats: IdTable::new(),
            player_action: IdTable::new(),
            resource: IdTable::new(),
            resource_desc: IdTable::new(),
            extraction_recipe: IdTable::new(),
            growth_timer: IdTable::new(),
            growth: IdTable::new(),
            claim: IdTable::new(),
            claim_member: IdTable::new(),
        }
    }

    /// The memberships that the rows tell: player and claim of each.
    pub fn player_claim_pairs(&self) -> (r: Vec<(u64, u64)>)
        requires
            self.wf(),
        ensures
            r@ == self.member_pairs(),
    {
        let mut out: Vec<(u64, u64)> = Vec::new();
        let ghost all = self.member_pairs();
        let mut i: usize = 0;
        while i < self.claim_member.len()
            invariant
                self.wf(),
                all == self.member_pairs(),
                i <= all.len(),
                out@ == all.take(i as int),
            decreases all.len() - i,
        {
            let row = self.claim_member.value_at(i);
            out.push((row.player_entity_id, row.claim_entity_id));
            assert(all.take(i + 1) =~= all.take(i as int).push(all[i as int]));
            i += 1;
        }
        assert(all.take(i as int) =~= all);
        out
    }

    /// The tile of an entity in the overworld.
    pub fn overworld_tile(&self, entity_id: u64) -> (r: Option<(i32, i32)>)
        requires
            self.wf(),
        ensures
            r == self.tile(entity_id),
    {
        match self.mobile_entity.get(entity_id) {
            Some(row) => if row.dimension == OVERWORLD_DIMENSION {
                Some((tile_in(row.location_x), tile_in(row.location_z)))
            } else {
                None
            },
            None => None,
        }
    }

    /// The description of a resource type.
    pub fn desc_of(&self, resource_id: i32) -> (r: Option<&ResourceDescRow>)
        requires
            self.wf(),
        ensures
            match r {
                Some(d) => self.desc(resource_id) == Some(*d),
                None => self.desc(resource_id) is None,
            },
    {
        self.resource_desc.get(key_of_i32(resource_id))
    }

    /// Unix milliseconds at which the current stage of an entity ends; `None`
    /// where nothing is scheduled.
    pub fn growth_window_end_ms(&self, entity_id: u64) -> (r: Option<i64>)
        requires
            self.wf(),
        ensures
            r == self.growth_end(entity_id),
    {
        let timer: Option<i64> = match self.growth_timer.get(entity_id) {
            Some(at) => *at,
            None => None,
        };
        let micros: Option<i64> = match timer {
            Some(m) => Some(m),
            None => match self.growth.get(entity_id) {
                Some(m) => Some(*m),
                None => None,
            },
        };
        match micros {
            Some(m) => Some(div_floor(m, 1000)),
            None => None,
        }
    }

    /// Value of the stat with a name.
    pub fn stat_value(&self, entity_id: u64, name: &str) -> (r: Option<Single>)
        requires
            self.wf(),
        ensures
            r == self.stat(entity_id, name@),
    {
        let mut i: usize = 0;
        while i < self.character_stat_desc.len()
            invariant
                self.wf(),
                i <= self.character_stat_desc@.len(),
                stat_from(self.character_stat_desc@, name@, 0) == stat_from(self.character_stat_desc@, name@, i as int),
            decreases self.character_stat_desc.len() - i,
        {
            if same_text(self.character_stat_desc[i].name.as_str(), name) {
                let n: i32 = self.character_stat_desc[i].stat_type;
                return match self.character_stats.get(entity_id) {
                    Some(values) => if n >= 0 && (n as usize) < values.len() {
                        Some(values[n as usize])
                    } else {
                        None
                    },
                    None => None,
                };
            }
            i += 1;
        }
        None
    }
}

/// Tile of a place in milli-units.
pub fn tile_in(milli: i32) -> (r: i32)
    ensures
        r == tile_of(milli as int),
{
    div_floor(milli as i64, MILLI_PER_TILE) as i32
}

/// Whether the tables of all regions are well formed.
pub open spec fn all_wf(shards: Seq<&RegionStore>) -> bool {
    forall|i: int| 0 <= i < shards.len() ==> (#[trigger] shards[i]).wf()
}

/// Regions with rows of a player among the first `n`: the last one where they
/// are at home and the last one where they stand. Once both were seen nobody
/// looks further.
pub open spec fn seen(shards: Seq<&RegionStore>, player: u64, n: nat) -> (Option<u32>, Option<u32>)
    decreases n,
{
    if n == 0 {
        (None, None)
    } else {
        let before = seen(shards, player, (n - 1) as nat);
        let s = shards[n - 1];
        if !s.ready || (before.0 is Some && before.1 is Some) {
            before
        } else {
            (
                if s.is_home(player) {
                    Some(s.region)
                } else {
                    before.0
                },
                if s.mobile_entity@.dom().contains(player) {
                    Some(s.region)
                } else {
                    before.1
                },
            )
        }
    }
}

/// The region of a player: where they stand counts before where they are at
/// home.
pub open spec fn region_with(shards: Seq<&RegionStore>, player: u64) -> Option<u32> {
    let (home, live) = seen(shards, player, shards.len());
    match live {
        Some(r) => Some(r),
        None => home,
    }
}

/// Looking further changes nothing once both were seen.
proof fn lemma_seen_ends(shards: Seq<&RegionStore>, player: u64, i: nat, n: nat)
    requires
        i <= n,
        seen(shards, player, i).0 is Some,
        seen(shards, player, i).1 is Some,
    ensures
        seen(shards, player, n) == seen(shards, player, i),
    decreases n - i,
{
    if i < n {
        lemma_seen_ends(shards, player, i, (n - 1) as nat);
    }
}

/// Whether a region is ready and has a row of where a player is.
pub open spec fn tells_place(s: RegionStore, player: u64) -> bool {
    s.ready && s.mobile_entity@.dom().contains(player)
}

/// Whether a region is ready and has the name of a player or whether they are
/// signed in.
pub open spec fn tells_home(s: RegionStore, player: u64) -> bool {
    s.ready && (s.player_username@.dom().contains(player) || s.player_state@.dom().contains(player))
}

/// Whether a region is that of a player. A region that tells where they are
/// counts, and only where there is none, one where they are at home.
pub open spec fn is_region_of(shards: Seq<&RegionStore>, player: u64, r: Option<u32>) -> bool {
    if exists|k: int| 0 <= k < shards.len() && tells_place(*#[trigger] shards[k], player) {
        exists|k: int|
            0 <= k < shards.len() && tells_place(*#[trigger] shards[k], player) && r == Some(shards[k].region)
    } else if exists|k: int| 0 <= k < shards.len() && tells_home(*#[trigger] shards[k], player) {
        exists|k: int|
            0 <= k < shards.len() && tells_home(*#[trigger] shards[k], player) && r == Some(shards[k].region)
    } else {
        r is None
    }
}

/// What the first regions tell of a player.
proof fn lemma_seen(shards: Seq<&RegionStore>, player: u64, n: nat)
    requires
        n <= shards.len(),
    ensures
        match seen(shards, player, n).1 {
            Some(r) => exists|k: int|
                0 <= k < shards.len() && tells_place(*#[trigger] shards[k], player) && r == shards[k].region,
            None => forall|k: int| 0 <= k < n ==> !tells_place(*#[trigger] shards[k], player),
        },
        match seen(shards, player, n).0 {
            Some(r) => exists|k: int|
                0 <= k < shards.len() && tells_home(*#[trigger] shards[k], player) && r == shards[k].region,
            None => forall|k: int| 0 <= k < n ==> !tells_home(*#[trigger] shards[k], player),
        },
    decreases n,
{
    if n > 0 {
        lemma_seen(shards, player, (n - 1) as nat);
        let s = shards[n - 1];
        assert(tells_place(*s, player) || !tells_place(*s, player));
        assert(tells_home(*s, player) || !tells_home(*s, player));
    }
}

/// The region of a player is one that is ready and tells where they are, in
/// whatever order the regions come. A region where they are only at home is
/// told where no region that is ready tells where they are. Where one region
/// alone tells where they are, it is that region.
pub proof fn law_where_a_player_is_counts_before_home(shards: Seq<&RegionStore>, player: u64)
    ensures
        is_region_of(shards, player, region_with(shards, player)),
        forall|k: int|
            0 <= k < shards.len() && tells_place(*#[trigger] shards[k], player) && (forall|j: int|
                0 <= j < shards.len() && j != k ==> !tells_place(*#[trigger] shards[j], player)) ==> region_with(
                shards,
                player,
            ) == Some(shards[k].region),
{
    lemma_seen(shards, player, shards.len());
}

/// The region that holds the rows of a player.
pub fn locate_player_region(shards: &[&RegionStore], player: u64) -> (r: Option<u32>)
    requires
        all_wf(shards@),
    ensures
        r == region_with(shards@, player),
        is_region_of(shards@, player, r),
{
    proof {
        law_where_a_player_is_counts_before_home(shards@, player);
    }
    let mut home: Option<u32> = None;
    let mut live: Option<u32> = None;
    let mut i: usize = 0;
    while i < shards.len()
        invariant
            all_wf(shards@),
            i <= shards@.len(),
            (home, live) == seen(shards@, player, i as nat),
            home is None || live is None,
            is_region_of(shards@, player, region_with(shards@, player)),
        decreases shards.len() - i,
    {
        let s = shards[i];
        if s.ready {
            if s.player_username.contains(player) || s.player_state.contains(player) {
                home = Some(s.region);
            }
            if s.mobile_entity.contains(player) {
                live = Some(s.region);
            }
            if live.is_some() && home.is_some() {
                proof {
                    lemma_seen_ends(shards@, player, (i + 1) as nat, shards@.len());
                }
                return live;
            }
        }
        i += 1;
    }
    if live.is_some() {
        live
    } else {
        home
    }
}

/// First region that is ready and tells something of a player who is at home
/// there, from `i` on.
pub open spec fn home_from(shards: Seq<&RegionStore>, player: u64, i: int) -> Option<int>
    decreases shards.len() - i,
{
    if i < 0 || i >= shards.len() {
        None
    } else if shards[i].ready && shards[i].is_home(player) {
        Some(i)
    } else {
        home_from(shards, player, i + 1)
    }
}

/// What a region tells of a player.
#[derive(Debug)]
pub struct ShardPlayer<'a> {
    pub region: u32,
    pub username: Option<&'a String>,
    pub signed_in: Option<bool>,
}

/// Name and sign-in state of a player in the first region that has either.
pub fn shard_player_info<'a>(shards: &[&'a RegionStore], player: u64) -> (r: Option<ShardPlayer<'a>>)
    requires
        all_wf(shards@),
    ensures
        match r {
            Some(p) => home_from(shards@, player, 0) matches Some(i) && {
                &&& p.region == shards@[i].region
                &&& match p.username {
                    Some(name) => known(shards@[i].player_username@, player) == Some(*name),
                    None => known(shards@[i].player_username@, player) is None,
                }
                &&& p.signed_in == known(shards@[i].player_state@, player)
            },
            None => home_from(shards@, player, 0) is None,
        },
{
    let mut i: usize = 0;
    while i < shards.len()
        invariant
            all_wf(shards@),
            i <= shards@.len(),
            home_from(shards@, player, 0) == home_from(shards@, player, i as int),
        decreases shards.len() - i,
    {
        let s: &'a RegionStore = shards[i];
        if s.ready {
            let username = s.player_username.get(player);
            let signed_in: Option<bool> = match s.player_state.get(player) {
                Some(b) => Some(*b),
                None => None,
            };
            if username.is_some() || signed_in.is_some() {
                return Some(ShardPlayer { region: s.region, username, signed_in });
            }
        }
        i += 1;
    }
    None
}

/// First region that is ready and has a player in the overworld, from `i` on.
pub open spec fn standing_from(shards: Seq<&RegionStore>, player: u64, i: int) -> Option<int>
    decreases shards.len() - i,
{
    if i < 0 || i >= shards.len() {
        None
    } else if shards[i].ready && shards[i].tile(player) is Some {
        Some(i)
    } else {
        standing_from(shards, player, i + 1)
    }
}

/// Where a player stands: the region and the tile.
pub open spec fn standing(shards: Seq<&RegionStore>, player: u64) -> Option<(u32, (i32, i32))> {
    match standing_from(shards, player, 0) {
        Some(i) => Some((shards[i].region, shards[i].tile(player)->Some_0)),
        None => None,
    }
}

/// Where a player stands. Rows that only tell their home do not count.
pub fn find_player_tile(shards: &[&RegionStore], player: u64) -> (r: Option<(u32, (i32, i32))>)
    requires
        all_wf(shards@),
    ensures
        r == standing(shards@, player),
{
    let mut i: usize = 0;
    while i < shards.len()
        invariant
            all_wf(shards@),
            i <= shards@.len(),
            standing_from(shards@, player, 0) == standing_from(shards@, player, i as int),
        decreases shards.len() - i,
    {
        let s = shards[i];
        if s.ready {
            if let Some(tile) = s.overworld_tile(player) {
                return Some((s.region, tile));
            }
        }
        i += 1;
    }
    None
}

/// First region with a number, from `i` on.
pub open spec fn shard_from(shards: Seq<&RegionStore>, region: u32, i: int) -> Option<int>
    decreases shards.len() - i,
{
    if i < 0 || i >= shards.len() {
        None
    } else if shards[i].region == region {
        Some(i)
    } else {
        shard_from(shards, region, i + 1)
    }
}

/// The rows of a region.
pub fn find_shard<'a>(shards: &[&'a RegionStore], region: u32) -> (r: Option<&'a RegionStore>)
    ensures
        match r {
            Some(s) => shard_from(shards@, region, 0) matches Some(i) && 0 <= i < shards@.len() && s == shards@[i],
            None => shard_from(shards@, region, 0) is None,
        },
{
    let mut i: usize = 0;
    while i < shards.len()
        invariant
            i <= shards@.len(),
            shard_from(shards@, region, 0) == shard_from(shards@, region, i as int),
        decreases shards.len() - i,
    {
        if shards[i].region == region {
            return Some(shards[i]);
        }
        i += 1;
    }
    None
}

/// The tile of an entity is that of its row in the overworld: each coordinate
/// is in the tile, which is a thousand units wide. Elsewhere it has none.
pub proof fn law_tiles_hold_their_entities(s: RegionStore, entity: u64, t: (i32, i32))
    ensures
        s.tile(entity) is Some <==> s.mobile_entity@.dom().contains(entity) && s.mobile_entity@[entity].dimension == 1,
        s.tile(entity) == Some(t) ==> {
            let row = s.mobile_entity@[entity];
            &&& t.0 * 1000 <= row.location_x < (t.0 + 1) * 1000
            &&& t.1 * 1000 <= row.location_z < (t.1 + 1) * 1000
        },
{
}

/// An entity changes next when its timer says so, and where it has none, when
/// the older row does; in whole milliseconds.
pub proof fn law_growth_follows_the_timer(s: RegionStore, entity: u64, micros: i64)
    requires
        if s.growth_timer@.dom().contains(entity) && s.growth_timer@[entity] is Some {
            s.growth_timer@[entity] == Some(micros)
        } else {
            s.growth@.dom().contains(entity) && s.growth@[entity] == micros
        },
    ensures
        s.growth_end(entity) matches Some(ms) && ms * 1000 <= micros < ms * 1000 + 1000,
{
}

/// Nothing is scheduled where no row says so.
pub proof fn law_nothing_grows_unscheduled(s: RegionStore, entity: u64)
    requires
        !s.growth_timer@.dom().contains(entity) || s.growth_timer@[entity] is None,
        !s.growth@.dom().contains(entity),
    ensures
        s.growth_end(entity) is None,
{
}

/// A player stands where a region that is ready has them in the overworld, and
/// nowhere else. No earlier region has them there.
pub proof fn law_players_stand_in_the_overworld(shards: Seq<&RegionStore>, player: u64)
    ensures
        match standing(shards, player) {
            Some(at) => exists|k: int|
                0 <= k < shards.len() && (#[trigger] shards[k]).ready && shards[k].tile(player) == Some(at.1)
                    && shards[k].region == at.0 && forall|j: int|
                    0 <= j < k ==> !((#[trigger] shards[j]).ready && shards[j].tile(player) is Some),
            None => forall|k: int|
                0 <= k < shards.len() && (#[trigger] shards[k]).ready ==> shards[k].tile(player) is None,
        },
{
    lemma_standing(shards, player, 0);
}

/// The first region that has a player in the overworld.
proof fn lemma_standing(shards: Seq<&RegionStore>, player: u64, i: int)
    requires
        0 <= i <= shards.len(),
    ensures
        match standing_from(shards, player, i) {
            Some(k) => i <= k < shards.len() && shards[k].ready && shards[k].tile(player) is Some && forall|j: int|
                i <= j < k ==> !((#[trigger] shards[j]).ready && shards[j].tile(player) is Some),
            None => forall|k: int| i <= k < shards.len() && (#[trigger] shards[k]).ready ==> shards[k].tile(player) is None,
        },
    decreases shards.len() - i,
{
    if i < shards.len() {
        lemma_standing(shards, player, i + 1);
    }
}

/// The value of a stat is that of the first description with its name, at the
/// number that the description has.
pub proof fn law_stats_are_found_by_name(s: RegionStore, entity: u64, name: Seq<char>, i: int)
    requires
        0 <= i < s.character_stat_desc@.len(),
        s.character_stat_desc@[i].name@ == name,
        forall|j: int| 0 <= j < i ==> (#[trigger] s.character_stat_desc@[j]).name@ != name,
        s.character_stats@.dom().contains(entity),
        0 <= s.character_stat_desc@[i].stat_type < s.character_stats@[entity]@.len(),
    ensures
        s.stat(entity, name) == Some(s.character_stats@[entity]@[s.character_stat_desc@[i].stat_type as int]),
{
    lemma_stat_from(s.character_stat_desc@, name, 0, i);
}

/// The first stat with a name.
proof fn lemma_stat_from(s: Seq<CharacterStatDescRow>, name: Seq<char>, from: int, i: int)
    requires
        0 <= from <= i < s.len(),
        s[i].name@ == name,
        forall|j: int| from <= j < i ==> (#[trigger] s[j]).name@ != name,
    ensures
        stat_from(s, name, from) == Some(i),
    decreases i - from,
{
    if from < i {
        lemma_stat_from(s, name, from + 1, i);
    }
}

/// The region of a player is the number of one of the regions.
pub proof fn law_player_region_is_held(shards: Seq<&RegionStore>, player: u64)
    ensures
        region_with(shards, player) matches Some(r) ==> shard_from(shards, r, 0) is Some,
{
    let (home, live) = seen(shards, player, shards.len());
    lemma_seen_held(shards, player, shards.len());
    if let Some(r) = region_with(shards, player) {
        let k = choose|k: int| 0 <= k < shards.len() && (#[trigger] shards[k]).region == r;
        lemma_shard_found(shards, r, 0, k);
    }
}

proof fn lemma_seen_held(shards: Seq<&RegionStore>, player: u64, n: nat)
    requires
        n <= shards.len(),
    ensures
        seen(shards, player, n).0 matches Some(r) ==> exists|k: int|
            0 <= k < shards.len() && (#[trigger] shards[k]).region == r,
        seen(shards, player, n).1 matches Some(r) ==> exists|k: int|
            0 <= k < shards.len() && (#[trigger] shards[k]).region == r,
    decreases n,
{
    if n > 0 {
        lemma_seen_held(shards, player, (n - 1) as nat);
        let s = shards[n - 1];
    }
}

proof fn lemma_shard_found(shards: Seq<&RegionStore>, region: u32, i: int, k: int)
    requires
        0 <= i <= k < shards.len(),
        shards[k].region == region,
    ensures
        shard_from(shards, region, i) is Some,
    decreases k - i,
{
    if i < k {
        lemma_shard_found(shards, region, i + 1, k);
    }
}

/// The memberships that the rows of a region tell are those of its rows: the
/// player of each first, then the claim.
pub proof fn law_memberships_are_those_of_the_rows(s: RegionStore, player: u64, claim: u64)
    requires
        s.wf(),
    ensures
        s.member_pairs().contains((player, claim)) <==> exists|id: u64| #[trigger]
            s.claim_member@.dom().contains(id) && s.claim_member@[id].player_entity_id == player
                && s.claim_member@[id].claim_entity_id == claim,
{
    let ids = s.claim_member.ids();
    let pairs = s.member_pairs();
    s.claim_member.lemma_ids();
    if pairs.contains((player, claim)) {
        let k = choose|k: int| 0 <= k < pairs.len() && pairs[k] == (player, claim);
        assert(s.claim_member@.dom().contains(ids[k]));
    }
    if exists|id: u64| #[trigger]
        s.claim_member@.dom().contains(id) && s.claim_member@[id].player_entity_id == player
            && s.claim_member@[id].claim_entity_id == claim {
        let id = choose|id: u64| #[trigger]
            s.claim_member@.dom().contains(id) && s.claim_member@[id].player_entity_id == player
                && s.claim_member@[id].claim_entity_id == claim;
        assert(ids.to_set().contains(id));
        let k = choose|k: int| 0 <= k < ids.len() && ids[k] == id;
        assert(pairs[k] == (player, claim));
    }
}

} // verus!
