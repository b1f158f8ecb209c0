//! How rows come to the store of a region and go from it.

use vstd::prelude::*;

use crate::bitme::hub::LiveTable;
use crate::bitme::region_store::RegionStore;
use crate::cell::{BuffEntry, Cell, Single};
use crate::decode::columns::{
    ACTIVE_BUFF_TABLE, CHARACTER_STATS_TABLE, CHARACTER_STAT_DESC_TABLE, CLAIM_MEMBER_TABLE, CLAIM_TABLE,
    EXTRACTION_RECIPE_TABLE, GROWTH_TABLE, MOBILE_ENTITY_TABLE, PLAYER_ACTION_TABLE, PLAYER_STATE_TABLE, PLAYER_USERNAME_TABLE,
    RESOURCE_DESC_TABLE, RESOURCE_GROWTH_TIMER_TABLE, RESOURCE_TABLE, STAMINA_TABLE, ColMaps,
};
use crate::decode::rows::{
    decode_active_buff_with_fields, decode_character_stat_desc_with_fields, decode_character_stats_with_fields,
    decode_claim_member_with_fields, decode_claim_with_fields, decode_extraction_recipe_with_fields, decode_growth_with_fields,
    decode_mobile_entity_with_fields, decode_player_action_with_fields, decode_player_state_with_fields,
    decode_player_username_with_fields, decode_resource_desc_with_fields, decode_resource_growth_timer_with_fields,
    decode_resource_with_fields, decode_stamina_with_fields, is_hexite_resource_id, ActiveBuffRow,
    CharacterStatDescRow, CharacterStatsRow, ClaimMemberRow, ClaimRow, ExtractionRecipeRow, GrowthRow, MobileEntityRow,
    PlayerActionRow, PlayerStateRow, PlayerUsernameRow, ResourceDescRow, ResourceGrowthTimerRow, ResourceRow,
    StaminaRow, DEPLETED_HEXITE_DEPOSIT_RESOURCE_ID, HEXITE_DEPOSIT_RESOURCE_ID,
};
use crate::id_table::{key32, key_of_i32, lemma_keys_injective, IdTable};
use crate::roads::apply::RowInput;
use crate::schema::DecodeError;
use crate::text::same_text;

verus! {

/// A row of a table that the store of a region keeps.
#[derive(Debug)]
pub enum RegionRow {
    Username(PlayerUsernameRow),
    State(PlayerStateRow),
    Mobile(MobileEntityRow),
    Stamina(StaminaRow),
    Buffs(ActiveBuffRow),
    StatDesc(CharacterStatDescRow),
    Stats(CharacterStatsRow),
    Action(PlayerActionRow),
    Resource(ResourceRow),
    Desc(ResourceDescRow),
    Recipe(ExtractionRecipeRow),
    Timer(ResourceGrowthTimerRow),
    Growth(GrowthRow),
    Claim(ClaimRow),
    Member(ClaimMemberRow),
    /// A row of another table.
    Other,
}

/// Whether a row with `n` cells has the columns of its table.
pub open spec fn region_row_fits(cols: ColMaps, table: Seq<char>, n: nat) -> bool {
    if table == PLAYER_USERNAME_TABLE@ {
        cols.player_username.fit(n)
    } else if table == PLAYER_STATE_TABLE@ {
        cols.player_state.fit(n)
    } else if table == MOBILE_ENTITY_TABLE@ {
        cols.mobile_entity.fit(n)
    } else if table == STAMINA_TABLE@ {
        cols.stamina.fit(n)
    } else if table == ACTIVE_BUFF_TABLE@ {
        cols.active_buff.fit(n)
    } else if table == CHARACTER_STAT_DESC_TABLE@ {
        cols.character_stat_desc.fit(n)
    } else if table == CHARACTER_STATS_TABLE@ {
        cols.character_stats.fit(n)
    } else if table == PLAYER_ACTION_TABLE@ {
        cols.player_action.fit(n)
    } else if table == RESOURCE_TABLE@ {
        cols.resource.fit(n)
    } else if table == RESOURCE_DESC_TABLE@ {
        cols.resource_desc.fit(n)
    } else if table == EXTRACTION_RECIPE_TABLE@ {
        cols.extraction_recipe.fit(n)
    } else if table == RESOURCE_GROWTH_TIMER_TABLE@ {
        cols.growth_timer.fit(n)
    } else if table == GROWTH_TABLE@ {
        cols.growth.fit(n)
    } else if table == CLAIM_TABLE@ {
        cols.claim.fit(n)
    } else if table == CLAIM_MEMBER_TABLE@ {
        cols.claim_member.fit(n)
    } else {
        true
    }
}

/// Why the cells of a row cannot be read.
pub open spec fn region_error(cols: ColMaps, table: Seq<char>, cells: Seq<Cell>) -> Option<DecodeError> {
    if table == PLAYER_USERNAME_TABLE@ {
        PlayerUsernameRow::error(cells, cols.player_username)
    } else if table == PLAYER_STATE_TABLE@ {
        PlayerStateRow::error(cells, cols.player_state)
    } else if table == MOBILE_ENTITY_TABLE@ {
        MobileEntityRow::error(cells, cols.mobile_entity)
    } else if table == STAMINA_TABLE@ {
        StaminaRow::error(cells, cols.stamina)
    } else if table == ACTIVE_BUFF_TABLE@ {
        ActiveBuffRow::error(cells, cols.active_buff)
    } else if table == CHARACTER_STAT_DESC_TABLE@ {
        CharacterStatDescRow::error(cells, cols.character_stat_desc)
    } else if table == CHARACTER_STATS_TABLE@ {
        CharacterStatsRow::error(cells, cols.character_stats)
    } else if table == PLAYER_ACTION_TABLE@ {
        PlayerActionRow::error(cells, cols.player_action)
    } else if table == RESOURCE_TABLE@ {
        ResourceRow::error(cells, cols.resource)
    } else if table == RESOURCE_DESC_TABLE@ {
        ResourceDescRow::error(cells, cols.resource_desc)
    } else if table == EXTRACTION_RECIPE_TABLE@ {
        ExtractionRecipeRow::error(cells, cols.extraction_recipe)
    } else if table == RESOURCE_GROWTH_TIMER_TABLE@ {
        ResourceGrowthTimerRow::error(cells, cols.growth_timer)
    } else if table == GROWTH_TABLE@ {
        GrowthRow::error(cells, cols.growth)
    } else if table == CLAIM_TABLE@ {
        ClaimRow::error(cells, cols.claim)
    } else if table == CLAIM_MEMBER_TABLE@ {
        ClaimMemberRow::error(cells, cols.claim_member)
    } else {
        None
    }
}

/// What the cells of a row say.
pub open spec fn reads_region(cols: ColMaps, table: Seq<char>, cells: Seq<Cell>, row: RegionRow) -> bool {
    if table == PLAYER_USERNAME_TABLE@ {
        row matches RegionRow::Username(r) && r.reads(cells, cols.player_username)
    } else if table == PLAYER_STATE_TABLE@ {
        row matches RegionRow::State(r) && r.reads(cells, cols.player_state)
    } else if table == MOBILE_ENTITY_TABLE@ {
        row matches RegionRow::Mobile(r) && r.reads(cells, cols.mobile_entity)
    } else if table == STAMINA_TABLE@ {
        row matches RegionRow::Stamina(r) && r.reads(cells, cols.stamina)
    } else if table == ACTIVE_BUFF_TABLE@ {
        row matches RegionRow::Buffs(r) && r.reads(cells, cols.active_buff)
    } else if table == CHARACTER_STAT_DESC_TABLE@ {
        row matches RegionRow::StatDesc(r) && r.reads(cells, cols.character_stat_desc)
    } else if table == CHARACTER_STATS_TABLE@ {
        row matches RegionRow::Stats(r) && r.reads(cells, cols.character_stats)
    } else if table == PLAYER_ACTION_TABLE@ {
        row matches RegionRow::Action(r) && r.reads(cells, cols.player_action)
    } else if table == RESOURCE_TABLE@ {
        row matches RegionRow::Resource(r) && r.reads(cells, cols.resource)
    } else if table == RESOURCE_DESC_TABLE@ {
        row matches RegionRow::Desc(r) && r.reads(cells, cols.resource_desc)
    } else if table == EXTRACTION_RECIPE_TABLE@ {
        row matches RegionRow::Recipe(r) && r.reads(cells, cols.extraction_recipe)
    } else if table == RESOURCE_GROWTH_TIMER_TABLE@ {
        row matches RegionRow::Timer(r) && r.reads(cells, cols.growth_timer)
    } else if table == GROWTH_TABLE@ {
        row matches RegionRow::Growth(r) && r.reads(cells, cols.growth)
    } else if table == CLAIM_TABLE@ {
        row matches RegionRow::Claim(r) && r.reads(cells, cols.claim)
    } else if table == CLAIM_MEMBER_TABLE@ {
        row matches RegionRow::Member(r) && r.reads(cells, cols.claim_member)
    } else {
        row is Other
    }
}

/// Reads a row of a table.
pub fn decode_region_row(cols: &ColMaps, table: &str, cells: &[Cell]) -> (r: Result<RegionRow, DecodeError>)
    requires
        region_row_fits(*cols, table@, cells@.len()),
    ensures
        match r {
            Ok(row) => reads_region(*cols, table@, cells@, row) && region_error(*cols, table@, cells@) is None,
            Err(e) => region_error(*cols, table@, cells@) == Some(e),
        },
{
    if same_text(table, PLAYER_USERNAME_TABLE) {
        return match decode_player_username_with_fields(cells, cols.player_username) {
            Ok(r) => Ok(RegionRow::Username(r)),
            Err(e) => Err(e),
        };
    }
    if same_text(table, PLAYER_STATE_TABLE) {
        return match decode_player_state_with_fields(cells, cols.player_state) {
            Ok(r) => Ok(RegionRow::State(r)),
            Err(e) => Err(e),
        };
    }
    if same_text(table, MOBILE_ENTITY_TABLE) {
        return match decode_mobile_entity_with_fields(cells, cols.mobile_entity) {
            Ok(r) => Ok(RegionRow::Mobile(r)),
            Err(e) => Err(e),
        };
    }
    if same_text(table, STAMINA_TABLE) {
        return match decode_stamina_with_fields(cells, cols.stamina) {
            Ok(r) => Ok(RegionRow::Stamina(r)),
            Err(e) => Err(e),
        };
    }
    if same_text(table, ACTIVE_BUFF_TABLE) {
        return match decode_active_buff_with_fields(cells, cols.active_buff) {
            Ok(r) => Ok(RegionRow::Buffs(r)),
            Err(e) => Err(e),
        };
    }
    if same_text(table, CHARACTER_STAT_DESC_TABLE) {
        return match decode_character_stat_desc_with_fields(cells, cols.character_stat_desc) {
            Ok(r) => Ok(RegionRow::StatDesc(r)),
            Err(e) => Err(e),
        };
    }
    if same_text(table, CHARACTER_STATS_TABLE) {
        return match decode_character_stats_with_fields(cells, cols.character_stats) {
            Ok(r) => Ok(RegionRow::Stats(r)),
            Err(e) => Err(e),
        };
    }
    if same_text(table, PLAYER_ACTION_TABLE) {
        return match decode_player_action_with_fields(cells, cols.player_action) {
            Ok(r) => Ok(RegionRow::Action(r)),
            Err(e) => Err(e),
        };
    }
    if same_text(table, RESOURCE_TABLE) {
        return match decode_resource_with_fields(cells, cols.resource) {
            Ok(r) => Ok(RegionRow::Resource(r)),
            Err(e) => Err(e),
        };
    }
    if same_text(table, RESOURCE_DESC_TABLE) {
        return match decode_resource_desc_with_fields(cells, cols.resource_desc) {
            Ok(r) => Ok(RegionRow::Desc(r)),
            Err(e) => Err(e),
        };
    }
    if same_text(table, EXTRACTION_RECIPE_TABLE) {
        return match decode_extraction_recipe_with_fields(cells, cols.extraction_recipe) {
            Ok(r) => Ok(RegionRow::Recipe(r)),
            Err(e) => Err(e),
        };
    }
    if same_text(table, RESOURCE_GROWTH_TIMER_TABLE) {
        return match decode_resource_growth_timer_with_fields(cells, cols.growth_timer) {
            Ok(r) => Ok(RegionRow::Timer(r)),
            Err(e) => Err(e),
        };
    }
    if same_text(table, GROWTH_TABLE) {
        return match decode_growth_with_fields(cells, cols.growth) {
            Ok(r) => Ok(RegionRow::Growth(r)),
            Err(e) => Err(e),
        };
    }
    if same_text(table, CLAIM_TABLE) {
        return match decode_claim_with_fields(cells, cols.claim) {
            Ok(r) => Ok(RegionRow::Claim(r)),
            Err(e) => Err(e),
        };
    }
    if same_text(table, CLAIM_MEMBER_TABLE) {
        return match decode_claim_member_with_fields(cells, cols.claim_member) {
            Ok(r) => Ok(RegionRow::Member(r)),
            Err(e) => Err(e),
        };
    }
    Ok(RegionRow::Other)
}

/// The rows of a region.
#[verifier::ext_equal]
pub struct StoreModel {
    pub region: u32,
    pub ready: bool,
    pub player_username: Map<u64, String>,
    pub player_state: Map<u64, bool>,
    pub mobile_entity: Map<u64, MobileEntityRow>,
    pub stamina: Map<u64, StaminaRow>,
    pub active_buff: Map<u64, Vec<BuffEntry>>,
    pub character_stat_desc: Seq<CharacterStatDescRow>,
    pub character_stats: Map<u64, Vec<Single>>,
    pub player_action: Map<u64, Seq<PlayerActionRow>>,
    pub resource: Map<u64, i32>,
    pub resource_desc: Map<u64, ResourceDescRow>,
    pub extraction_recipe: Map<u64, i32>,
    pub growth_timer: Map<u64, Option<i64>>,
    pub growth: Map<u64, i64>,
    pub claim: Map<u64, ClaimRow>,
    pub claim_member: Map<u64, ClaimMemberRow>,
}

/// Being another action.
pub open spec fn is_other_action(auto_id: u64) -> spec_fn(PlayerActionRow) -> bool {
    |a: PlayerActionRow| a.auto_id != auto_id
}

/// Being another stat.
pub open spec fn is_other_stat(stat_type: i32) -> spec_fn(CharacterStatDescRow) -> bool {
    |d: CharacterStatDescRow| d.stat_type != stat_type
}

/// Whether a resource type is one whose entities are kept.
pub open spec fn is_kept(resource_id: i32) -> bool {
    resource_id == HEXITE_DEPOSIT_RESOURCE_ID || resource_id == DEPLETED_HEXITE_DEPOSIT_RESOURCE_ID
}

impl StoreModel {
    /// A region without rows.
    pub open spec fn empty(region: u32) -> StoreModel {
        StoreModel {
            region,
            ready: false,
            player_username: Map::empty(),
            player_state: Map::empty(),
            mobile_entity: Map::empty(),
            stamina: Map::empty(),
            active_buff: Map::empty(),
            character_stat_desc: Seq::empty(),
            character_stats: Map::empty(),
            player_action: Map::empty(),
            resource: Map::empty(),
            resource_desc: Map::empty(),
            extraction_recipe: Map::empty(),
            growth_timer: Map::empty(),
            growth: Map::empty(),
            claim: Map::empty(),
            claim_member: Map::empty(),
        }
    }

    /// The actions of a player.
    pub open spec fn actions(self, player: u64) -> Seq<PlayerActionRow> {
        if self.player_action.dom().contains(player) {
            self.player_action[player]
        } else {
            Seq::empty()
        }
    }

    /// The actions of a player without one of them.
    pub open spec fn other_actions(self, player: u64, auto_id: u64) -> Seq<PlayerActionRow> {
        self.actions(player).filter(is_other_action(auto_id))
    }

    /// The rows after one more came. It takes the place of one with the same id.
    pub open spec fn with_row(self, row: RegionRow) -> StoreModel {
        match row {
            RegionRow::Username(r) => StoreModel {
                player_username: self.player_username.insert(r.entity_id, r.username),
                ..self
            },
            RegionRow::State(r) => StoreModel {
                player_state: self.player_state.insert(r.entity_id, r.signed_in),
                ..self
            },
            RegionRow::Mobile(r) => StoreModel { mobile_entity: self.mobile_entity.insert(r.entity_id, r), ..self },
            RegionRow::Stamina(r) => StoreModel { stamina: self.stamina.insert(r.entity_id, r), ..self },
            RegionRow::Buffs(r) => StoreModel { active_buff: self.active_buff.insert(r.entity_id, r.buffs), ..self },
            RegionRow::StatDesc(r) => StoreModel {
                character_stat_desc: self.character_stat_desc.filter(is_other_stat(r.stat_type)).push(r),
                ..self
            },
            RegionRow::Stats(r) => StoreModel {
                character_stats: self.character_stats.insert(r.entity_id, r.values),
                ..self
            },
            RegionRow::Action(r) => StoreModel {
                player_action: self.player_action.insert(
                    r.entity_id,
                    self.other_actions(r.entity_id, r.auto_id).push(r),
                ),
                ..self
            },
            RegionRow::Resource(r) => if is_kept(r.resource_id) {
                StoreModel { resource: self.resource.insert(r.entity_id, r.resource_id), ..self }
            } else {
                self
            },
            RegionRow::Desc(r) => StoreModel {
                resource_desc: self.resource_desc.insert(key32(r.id as int), r),
                ..self
            },
            RegionRow::Recipe(r) => StoreModel {
                extraction_recipe: self.extraction_recipe.insert(key32(r.id as int), r.resource_id),
                ..self
            },
            RegionRow::Timer(r) => StoreModel {
                growth_timer: self.growth_timer.insert(r.entity_id, r.scheduled_at_micros),
                ..self
            },
            RegionRow::Growth(r) => StoreModel {
                growth: self.growth.insert(r.entity_id, r.end_timestamp_micros),
                ..self
            },
            RegionRow::Claim(r) => StoreModel { claim: self.claim.insert(r.entity_id, r), ..self },
            RegionRow::Member(r) => StoreModel { claim_member: self.claim_member.insert(r.entity_id, r), ..self },
            RegionRow::Other => self,
        }
    }

    /// The rows after one went.
    pub open spec fn without_row(self, row: RegionRow) -> StoreModel {
        match row {
            RegionRow::Username(r) => StoreModel {
                player_username: self.player_username.remove(r.entity_id),
                ..self
            },
            RegionRow::State(r) => StoreModel { player_state: self.player_state.remove(r.entity_id), ..self },
            RegionRow::Mobile(r) => StoreModel { mobile_entity: self.mobile_entity.remove(r.entity_id), ..self },
            RegionRow::Stamina(r) => StoreModel { stamina: self.stamina.remove(r.entity_id), ..self },
            RegionRow::Buffs(r) => StoreModel { active_buff: self.active_buff.remove(r.entity_id), ..self },
            RegionRow::StatDesc(r) => StoreModel {
                character_stat_desc: self.character_stat_desc.filter(is_other_stat(r.stat_type)),
                ..self
            },
            RegionRow::Stats(r) => StoreModel { character_stats: self.character_stats.remove(r.entity_id), ..self },
            RegionRow::Action(r) => StoreModel {
                player_action: if self.other_actions(r.entity_id, r.auto_id).len() == 0 {
                    self.player_action.remove(r.entity_id)
                } else {
                    self.player_action.insert(r.entity_id, self.other_actions(r.entity_id, r.auto_id))
                },
                ..self
            },
            RegionRow::Resource(r) => StoreModel { resource: self.resource.remove(r.entity_id), ..self },
            RegionRow::Desc(r) => StoreModel { resource_desc: self.resource_desc.remove(key32(r.id as int)), ..self },
            RegionRow::Recipe(r) => StoreModel {
                extraction_recipe: self.extraction_recipe.remove(key32(r.id as int)),
                ..self
            },
            RegionRow::Timer(r) => StoreModel { growth_timer: self.growth_timer.remove(r.entity_id), ..self },
            RegionRow::Growth(r) => StoreModel { growth: self.growth.remove(r.entity_id), ..self },
            RegionRow::Claim(r) => StoreModel { claim: self.claim.remove(r.entity_id), ..self },
            RegionRow::Member(r) => StoreModel { claim_member: self.claim_member.remove(r.entity_id), ..self },
            RegionRow::Other => self,
        }
    }
}

impl View for RegionStore {
    type V = StoreModel;

    open spec fn view(&self) -> StoreModel {
        StoreModel {
            region: self.region,
            ready: self.ready,
            player_username: self.player_username@,
            player_state: self.player_state@,
            mobile_entity: self.mobile_entity@,
            stamina: self.stamina@,
            active_buff: self.active_buff@,
            character_stat_desc: self.character_stat_desc@,
            character_stats: self.character_stats@,
            player_action: self.player_action@.map_values(|v: Vec<PlayerActionRow>| v@),
            resource: self.resource@,
            resource_desc: self.resource_desc@,
            extraction_recipe: self.extraction_recipe@,
            growth_timer: self.growth_timer@,
            growth: self.growth@,
            claim: self.claim@,
            claim_member: self.claim_member@,
        }
    }
}

/// The actions of a list without one of them.
fn without_action(list: Vec<PlayerActionRow>, auto_id: u64) -> (r: Vec<PlayerActionRow>)
    ensures
        r@ == list@.filter(is_other_action(auto_id)),
{
    let ghost all = list@;
    let ghost f = is_other_action(auto_id);
    let mut out: Vec<PlayerActionRow> = Vec::new();
    proof {
        reveal(Seq::filter);
        assert(all.take(0).filter(f) =~= Seq::<PlayerActionRow>::empty());
    }
    for a in it: list
        invariant
            it.seq() == all,
            f == is_other_action(auto_id),
            out@ == all.take(it.index() as int).filter(f),
    {
        proof {
            reveal(Seq::filter);
            assert(all.take(it.index() + 1).drop_last() =~= all.take(it.index() as int));
        }
        if a.auto_id != auto_id {
            out.push(a);
        }
    }
    assert(all.take(all.len() as int) =~= all);
    out
}

/// The stats of a list without one of them.
fn without_stat(list: Vec<CharacterStatDescRow>, stat_type: i32) -> (r: Vec<CharacterStatDescRow>)
    ensures
        r@ == list@.filter(is_other_stat(stat_type)),
{
    let ghost all = list@;
    let ghost f = is_other_stat(stat_type);
    let mut out: Vec<CharacterStatDescRow> = Vec::new();
    proof {
        reveal(Seq::filter);
        assert(all.take(0).filter(f) =~= Seq::<CharacterStatDescRow>::empty());
    }
    for d in it: list
        invariant
            it.seq() == all,
            f == is_other_stat(stat_type),
            out@ == all.take(it.index() as int).filter(f),
    {
        proof {
            reveal(Seq::filter);
            assert(all.take(it.index() + 1).drop_last() =~= all.take(it.index() as int));
        }
        if d.stat_type != stat_type {
            out.push(d);
        }
    }
    assert(all.take(all.len() as int) =~= all);
    out
}

impl RegionStore {
    /// Takes the actions of a player out, without one of them.
    fn take_actions(&mut self, player: u64, auto_id: u64) -> (r: Vec<PlayerActionRow>)
        requires
            old(self).wf(),
        ensures
            final(self).wf(),
            final(self)@ == (StoreModel { player_action: old(self)@.player_action.remove(player), ..old(self)@ }),
            r@ == old(self)@.other_actions(player, auto_id),
    {
        let list: Vec<PlayerActionRow> = match self.player_action.remove(player) {
            Some(l) => l,
            None => Vec::new(),
        };
        assert(list@ =~= old(self)@.actions(player));
        assert(self@.player_action =~= old(self)@.player_action.remove(player));
        without_action(list, auto_id)
    }

    /// Takes a stat out of the list of stats.
    fn drop_stat(&mut self, stat_type: i32)
        requires
            old(self).wf(),
        ensures
            final(self).wf(),
            final(self)@ == (StoreModel {
                character_stat_desc: old(self)@.character_stat_desc.filter(is_other_stat(stat_type)),
                ..old(self)@
            }),
    {
        let mut list: Vec<CharacterStatDescRow> = Vec::new();
        std::mem::swap(&mut self.character_stat_desc, &mut list);
        self.character_stat_desc = without_stat(list, stat_type);
    }

    /// A row came.
    pub fn insert_row(&mut self, row: RegionRow)
        requires
            old(self).wf(),
        ensures
            final(self).wf(),
            final(self)@ == old(self)@.with_row(row),
    {
        let ghost was = self@;
        match row {
            RegionRow::Username(r) => {
                let _ = self.player_username.insert(r.entity_id, r.username);
            },
            RegionRow::State(r) => {
                let _ = self.player_state.insert(r.entity_id, r.signed_in);
            },
            RegionRow::Mobile(r) => {
                let _ = self.mobile_entity.insert(r.entity_id, r);
            },
            RegionRow::Stamina(r) => {
                let _ = self.stamina.insert(r.entity_id, r);
            },
            RegionRow::Buffs(r) => {
                let _ = self.active_buff.insert(r.entity_id, r.buffs);
            },
            RegionRow::StatDesc(r) => {
                self.drop_stat(r.stat_type);
                self.character_stat_desc.push(r);
            },
            RegionRow::Stats(r) => {
                let _ = self.character_stats.insert(r.entity_id, r.values);
            },
            RegionRow::Action(r) => {
                let player: u64 = r.entity_id;
                let mut list = self.take_actions(player, r.auto_id);
                list.push(r);
                let ghost (between, after) = (self@.player_action, list@);
                let _ = self.player_action.insert(player, list);
                assert(self@.player_action =~= between.insert(player, after));
                assert(between.insert(player, after) =~= was.player_action.insert(player, after));
            },
            RegionRow::Resource(r) => {
                if is_hexite_resource_id(r.resource_id) {
                    let _ = self.resource.insert(r.entity_id, r.resource_id);
                }
            },
            RegionRow::Desc(r) => {
                let _ = self.resource_desc.insert(key_of_i32(r.id), r);
            },
            RegionRow::Recipe(r) => {
                let _ = self.extraction_recipe.insert(key_of_i32(r.id), r.resource_id);
            },
            RegionRow::Timer(r) => {
                let _ = self.growth_timer.insert(r.entity_id, r.scheduled_at_micros);
            },
            RegionRow::Growth(r) => {
                let _ = self.growth.insert(r.entity_id, r.end_timestamp_micros);
            },
            RegionRow::Claim(r) => {
                let _ = self.claim.insert(r.entity_id, r);
            },
            RegionRow::Member(r) => {
                let _ = self.claim_member.insert(r.entity_id, r);
            },
            RegionRow::Other => {},
        }
    }

    /// A row went.
    pub fn delete_row(&mut self, row: &RegionRow)
        requires
            old(self).wf(),
        ensures
            final(self).wf(),
            final(self)@ == old(self)@.without_row(*row),
    {
        let ghost was = self@;
        match row {
            RegionRow::Username(r) => {
                let _ = self.player_username.remove(r.entity_id);
            },
            RegionRow::State(r) => {
                let _ = self.player_state.remove(r.entity_id);
            },
            RegionRow::Mobile(r) => {
                let _ = self.mobile_entity.remove(r.entity_id);
            },
            RegionRow::Stamina(r) => {
                let _ = self.stamina.remove(r.entity_id);
            },
            RegionRow::Buffs(r) => {
                let _ = self.active_buff.remove(r.entity_id);
            },
            RegionRow::StatDesc(r) => {
                self.drop_stat(r.stat_type);
            },
            RegionRow::Stats(r) => {
                let _ = self.character_stats.remove(r.entity_id);
            },
            RegionRow::Action(r) => {
                let list = self.take_actions(r.entity_id, r.auto_id);
                if list.len() > 0 {
                    let ghost (between, after) = (self@.player_action, list@);
                    let _ = self.player_action.insert(r.entity_id, list);
                    assert(self@.player_action =~= between.insert(r.entity_id, after));
                    assert(between.insert(r.entity_id, after) =~= was.player_action.insert(r.entity_id, after));
                }
            },
            RegionRow::Resource(r) => {
                let _ = self.resource.remove(r.entity_id);
            },
            RegionRow::Desc(r) => {
                let _ = self.resource_desc.remove(key_of_i32(r.id));
            },
            RegionRow::Recipe(r) => {
                let _ = self.extraction_recipe.remove(key_of_i32(r.id));
            },
            RegionRow::Timer(r) => {
                let _ = self.growth_timer.remove(r.entity_id);
            },
            RegionRow::Growth(r) => {
                let _ = self.growth.remove(r.entity_id);
            },
            RegionRow::Claim(r) => {
                let _ = self.claim.remove(r.entity_id);
            },
            RegionRow::Member(r) => {
                let _ = self.claim_member.remove(r.entity_id);
            },
            RegionRow::Other => {},
        }
    }
}

/// Whether a row came or went. A row that cannot be read changes nothing.
pub open spec fn row_done(
    before: StoreModel,
    after: StoreModel,
    cols: ColMaps,
    table: Seq<char>,
    input: RowInput,
    came: bool,
) -> bool {
    match input.cells {
        Some(c) => match region_error(cols, table, c@) {
            Some(_) => after == before,
            None => exists|row: RegionRow| #[trigger]
                reads_region(cols, table, c@, row) && after == if came {
                    before.with_row(row)
                } else {
                    before.without_row(row)
                },
        },
        None => after == before,
    }
}

/// The row that is the `i`-th to go or to come in a table: rows go before
/// others come.
pub open spec fn change_at(t: LiveTable, i: int) -> (RowInput, bool) {
    if i < t.deletes@.len() {
        (t.deletes@[i], false)
    } else {
        (t.inserts@[i - t.deletes@.len()], true)
    }
}

/// Number of rows that go or come in a table.
pub open spec fn changes_in(t: LiveTable) -> int {
    (t.deletes@.len() + t.inserts@.len()) as int
}

/// Whether a store went through states as the rows of a table went and came.
pub open spec fn store_through(states: Seq<StoreModel>, cols: ColMaps, t: LiveTable, n: int) -> bool {
    &&& states.len() == n + 1
    &&& forall|i: int|
        0 <= i < n ==> row_done(
            #[trigger] states[i],
            states[i + 1],
            cols,
            t.name@,
            change_at(t, i).0,
            change_at(t, i).1,
        )
}

/// Whether the rows of a table were applied to a store.
pub open spec fn table_done(before: StoreModel, after: StoreModel, cols: ColMaps, t: LiveTable) -> bool {
    exists|states: Seq<StoreModel>| #[trigger]
        store_through(states, cols, t, changes_in(t)) && states.first() == before && states.last() == after
}

/// Whether a store went through states as tables were applied to it in turn.
pub open spec fn tables_done(states: Seq<StoreModel>, cols: ColMaps, tables: Seq<LiveTable>, n: int) -> bool {
    &&& states.len() == n + 1
    &&& forall|i: int| 0 <= i < n ==> table_done(#[trigger] states[i], states[i + 1], cols, tables[i])
}

/// Whether the rows of a table have the columns that are read of them.
pub open spec fn table_fits(cols: ColMaps, t: LiveTable) -> bool {
    forall|i: int|
        0 <= i < changes_in(t) ==> ((#[trigger] change_at(t, i)).0.cells matches Some(c) ==> region_row_fits(
            cols,
            t.name@,
            c@.len(),
        ))
}

/// Whether resources of a type come up where others are destroyed.
pub open spec fn is_yielded(descs: Map<u64, ResourceDescRow>, resource_id: i32) -> bool {
    resource_id != 0 && exists|k: u64| #[trigger]
        descs.dom().contains(k) && descs[k].on_destroy_yield_resource_id == resource_id
}

impl RegionStore {
    /// A row came or went.
    fn apply_row(&mut self, cols: &ColMaps, table: &str, input: &RowInput, came: bool)
        requires
            old(self).wf(),
            input.cells matches Some(c) ==> region_row_fits(*cols, table@, c@.len()),
        ensures
            final(self).wf(),
            row_done(old(self)@, final(self)@, *cols, table@, *input, came),
    {
        if let Some(c) = &input.cells {
            if let Ok(row) = decode_region_row(cols, table, c.as_slice()) {
                if came {
                    self.insert_row(row);
                } else {
                    self.delete_row(&row);
                }
            }
        }
    }

    /// The rows of a table went and came.
    fn apply_table(&mut self, cols: &ColMaps, t: &LiveTable)
        requires
            old(self).wf(),
            table_fits(*cols, *t),
        ensures
            final(self).wf(),
            table_done(old(self)@, final(self)@, *cols, *t),
    {
        let ghost mut states: Seq<StoreModel> = seq![self@];
        let mut i: usize = 0;
        while i < t.deletes.len()
            invariant
                self.wf(),
                table_fits(*cols, *t),
                i <= t.deletes@.len(),
                store_through(states, *cols, *t, i as int),
                states.first() == old(self)@,
                states.last() == self@,
            decreases t.deletes.len() - i,
        {
            assert(change_at(*t, i as int) == (t.deletes@[i as int], false));
            self.apply_row(cols, t.name.as_str(), &t.deletes[i], false);
            proof {
                lemma_one_more(states, *cols, *t, i as int, self@);
                states = states.push(self@);
            }
            i += 1;
        }
        let ghost d = i as int;
        let mut j: usize = 0;
        while j < t.inserts.len()
            invariant
                self.wf(),
                table_fits(*cols, *t),
                d == t.deletes@.len(),
                j <= t.inserts@.len(),
                store_through(states, *cols, *t, d + j),
                states.first() == old(self)@,
                states.last() == self@,
            decreases t.inserts.len() - j,
        {
            assert(change_at(*t, d + j) == (t.inserts@[j as int], true));
            self.apply_row(cols, t.name.as_str(), &t.inserts[j], true);
            proof {
                lemma_one_more(states, *cols, *t, d + j, self@);
                states = states.push(self@);
            }
            j += 1;
        }
        assert(store_through(states, *cols, *t, changes_in(*t)));
    }

    /// The rows of an update went and came, table by table.
    pub fn apply_tables(&mut self, cols: &ColMaps, tables: &[LiveTable])
        requires
            old(self).wf(),
            forall|i: int| 0 <= i < tables@.len() ==> table_fits(*cols, #[trigger] tables@[i]),
        ensures
            final(self).wf(),
            exists|states: Seq<StoreModel>| #[trigger]
                tables_done(states, *cols, tables@, tables@.len() as int) && states.first() == old(self)@
                    && states.last() == final(self)@,
    {
        let ghost mut states: Seq<StoreModel> = seq![self@];
        let mut i: usize = 0;
        while i < tables.len()
            invariant
                self.wf(),
                forall|k: int| 0 <= k < tables@.len() ==> table_fits(*cols, #[trigger] tables@[k]),
                i <= tables@.len(),
                tables_done(states, *cols, tables@, i as int),
                states.first() == old(self)@,
                states.last() == self@,
            decreases tables.len() - i,
        {
            self.apply_table(cols, &tables[i]);
            proof {
                let was = states;
                states = states.push(self@);
                assert forall|k: int| 0 <= k < i + 1 implies table_done(
                    #[trigger] states[k],
                    states[k + 1],
                    *cols,
                    tables@[k],
                ) by {
                    if k < i {
                        assert(states[k] == was[k] && states[k + 1] == was[k + 1]);
                    }
                }
            }
            i += 1;
        }
        assert(tables_done(states, *cols, tables@, tables@.len() as int));
    }

    /// The resource types that come up where others are destroyed.
    pub fn watched_spawns(&self) -> (r: IdTable<()>)
        requires
            self.wf(),
        ensures
            r.wf(),
            forall|id: i32|
                #![trigger key32(id as int)]
                r@.dom().contains(key32(id as int)) <==> is_yielded(self.resource_desc@, id),
    {
        let mut out: IdTable<()> = IdTable::new();
        let ghost ids = self.resource_desc.ids();
        let ghost descs = self.resource_desc@;
        proof {
            self.resource_desc.lemma_ids();
        }
        let mut i: usize = 0;
        while i < self.resource_desc.len()
            invariant
                self.wf(),
                out.wf(),
                ids == self.resource_desc.ids(),
                descs == self.resource_desc@,
                ids.to_set() == descs.dom(),
                i <= ids.len(),
                forall|id: i32|
                    #![trigger key32(id as int)]
                    out@.dom().contains(key32(id as int)) <==> id != 0 && exists|j: int|
                        0 <= j < i && descs[#[trigger] ids[j]].on_destroy_yield_resource_id == id,
            decreases ids.len() - i,
        {
            let ghost before = out@.dom();
            let next: i32 = self.resource_desc.value_at(i).on_destroy_yield_resource_id;
            if next != 0 {
                let _ = out.insert(key_of_i32(next), ());
            }
            proof {
                lemma_keys_injective();
                assert(descs[ids[i as int]].on_destroy_yield_resource_id == next);
                assert forall|id: i32|
                    #![trigger key32(id as int)]
                    out@.dom().contains(key32(id as int)) <==> id != 0 && exists|j: int|
                        0 <= j < i + 1 && descs[#[trigger] ids[j]].on_destroy_yield_resource_id == id by {
                    assert(before.contains(key32(id as int)) ==> out@.dom().contains(key32(id as int)));
                    if id == next {
                        assert(descs[ids[i as int]].on_destroy_yield_resource_id == id);
                    }
                }
            }
            i += 1;
        }
        proof {
            assert forall|id: i32|
                #![trigger key32(id as int)]
                out@.dom().contains(key32(id as int)) <==> is_yielded(descs, id) by {
                if is_yielded(descs, id) {
                    let k = choose|k: u64| #[trigger]
                        descs.dom().contains(k) && descs[k].on_destroy_yield_resource_id == id;
                    assert(ids.to_set().contains(k));
                    let j = choose|j: int| 0 <= j < ids.len() && ids[j] == k;
                    assert(descs[ids[j]].on_destroy_yield_resource_id == id);
                }
                if out@.dom().contains(key32(id as int)) {
                    let j = choose|j: int|
                        0 <= j < ids.len() && descs[#[trigger] ids[j]].on_destroy_yield_resource_id == id;
                    assert(ids.to_set().contains(ids[j]));
                    assert(descs.dom().contains(ids[j]));
                }
            }
        }
        out
    }
}

/// One more step of a table.
proof fn lemma_one_more(states: Seq<StoreModel>, cols: ColMaps, t: LiveTable, n: int, after: StoreModel)
    requires
        n >= 0,
        store_through(states, cols, t, n),
        row_done(states.last(), after, cols, t.name@, change_at(t, n).0, change_at(t, n).1),
    ensures
        store_through(states.push(after), cols, t, n + 1),
{
    let more = states.push(after);
    assert forall|i: int| 0 <= i < n + 1 implies row_done(
        #[trigger] more[i],
        more[i + 1],
        cols,
        t.name@,
        change_at(t, i).0,
        change_at(t, i).1,
    ) by {
        if i < n {
            assert(more[i] == states[i] && more[i + 1] == states[i + 1]);
        }
    }
}

/// Whether an entry is there after its row came and is not after it went, and
/// all other entries are as they were.
pub open spec fn entry_kept<V>(before: Map<u64, V>, came: Map<u64, V>, gone: Map<u64, V>, id: u64, v: V) -> bool {
    &&& came.dom().contains(id) && came[id] == v
    &&& !gone.dom().contains(id)
    &&& forall|k: u64| k != id ==> (#[trigger] came.dom().contains(k) <==> before.dom().contains(k))
    &&& forall|k: u64| k != id ==> (#[trigger] gone.dom().contains(k) <==> before.dom().contains(k))
    &&& forall|k: u64| k != id && #[trigger] before.dom().contains(k) ==> came[k] == before[k] && gone[k] == before[k]
}

/// Whether nothing but one of the tables differs between two stores.
pub open spec fn same_tables(a: StoreModel, b: StoreModel, row: RegionRow) -> bool {
    &&& a.region == b.region && a.ready == b.ready
    &&& row is Username || a.player_username == b.player_username
    &&& row is State || a.player_state == b.player_state
    &&& row is Mobile || a.mobile_entity == b.mobile_entity
    &&& row is Stamina || a.stamina == b.stamina
    &&& row is Buffs || a.active_buff == b.active_buff
    &&& row is StatDesc || a.character_stat_desc == b.character_stat_desc
    &&& row is Stats || a.character_stats == b.character_stats
    &&& row is Action || a.player_action == b.player_action
    &&& row is Resource || a.resource == b.resource
    &&& row is Desc || a.resource_desc == b.resource_desc
    &&& row is Recipe || a.extraction_recipe == b.extraction_recipe
    &&& row is Timer || a.growth_timer == b.growth_timer
    &&& row is Growth || a.growth == b.growth
    &&& row is Claim || a.claim == b.claim
    &&& row is Member || a.claim_member == b.claim_member
}

/// A row is kept under its id from when it came until it went; rows of other
/// ids, and of other tables, stay as they are. Of resources only hexite deposits
/// are kept. A player has several actions, and a row of one takes the place of
/// the one with its number.
pub proof fn law_rows_are_kept_until_they_go(m: StoreModel, row: RegionRow, id: u64, a: PlayerActionRow)
    ensures
        ({
            let came = m.with_row(row);
            let gone = m.without_row(row);
            &&& same_tables(m, came, row) && same_tables(m, gone, row)
            &&& match row {
                RegionRow::Username(r) => entry_kept(
                    m.player_username,
                    came.player_username,
                    gone.player_username,
                    r.entity_id,
                    r.username,
                ),
                RegionRow::State(r) => entry_kept(
                    m.player_state,
                    came.player_state,
                    gone.player_state,
                    r.entity_id,
                    r.signed_in,
                ),
                RegionRow::Mobile(r) => entry_kept(
                    m.mobile_entity,
                    came.mobile_entity,
                    gone.mobile_entity,
                    r.entity_id,
                    r,
                ),
                RegionRow::Stamina(r) => entry_kept(m.stamina, came.stamina, gone.stamina, r.entity_id, r),
                RegionRow::Buffs(r) => entry_kept(
                    m.active_buff,
                    came.active_buff,
                    gone.active_buff,
                    r.entity_id,
                    r.buffs,
                ),
                RegionRow::StatDesc(r) => {
                    &&& came.character_stat_desc.len() > 0 && came.character_stat_desc.last() == r
                    &&& forall|d: CharacterStatDescRow|
                        d.stat_type != r.stat_type ==> (#[trigger] came.character_stat_desc.contains(d)
                            <==> m.character_stat_desc.contains(d))
                    &&& forall|d: CharacterStatDescRow| #[trigger]
                        gone.character_stat_desc.contains(d) <==> m.character_stat_desc.contains(d) && d.stat_type
                            != r.stat_type
                },
                RegionRow::Stats(r) => entry_kept(
                    m.character_stats,
                    came.character_stats,
                    gone.character_stats,
                    r.entity_id,
                    r.values,
                ),
                RegionRow::Action(r) => {
                    &&& came.actions(r.entity_id).contains(r)
                    &&& a != r ==> (came.actions(r.entity_id).contains(a) <==> m.actions(r.entity_id).contains(a)
                        && a.auto_id != r.auto_id)
                    &&& gone.actions(r.entity_id).contains(a) <==> m.actions(r.entity_id).contains(a) && a.auto_id
                        != r.auto_id
                    &&& gone.player_action.dom().contains(r.entity_id) ==> gone.actions(r.entity_id).len() > 0
                    &&& id != r.entity_id ==> came.actions(id) == m.actions(id) && gone.actions(id) == m.actions(id)
                },
                RegionRow::Resource(r) => if r.resource_id == 348497955 || r.resource_id == 854132798 {
                    entry_kept(m.resource, came.resource, gone.resource, r.entity_id, r.resource_id)
                } else {
                    came == m && !gone.resource.dom().contains(r.entity_id)
                },
                RegionRow::Desc(r) => entry_kept(
                    m.resource_desc,
                    came.resource_desc,
                    gone.resource_desc,
                    key32(r.id as int),
                    r,
                ),
                RegionRow::Recipe(r) => entry_kept(
                    m.extraction_recipe,
                    came.extraction_recipe,
                    gone.extraction_recipe,
                    key32(r.id as int),
                    r.resource_id,
                ),
                RegionRow::Timer(r) => entry_kept(
                    m.growth_timer,
                    came.growth_timer,
                    gone.growth_timer,
                    r.entity_id,
                    r.scheduled_at_micros,
                ),
                RegionRow::Growth(r) => entry_kept(
                    m.growth,
                    came.growth,
                    gone.growth,
                    r.entity_id,
                    r.end_timestamp_micros,
                ),
                RegionRow::Claim(r) => entry_kept(m.claim, came.claim, gone.claim, r.entity_id, r),
                RegionRow::Member(r) => entry_kept(
                    m.claim_member,
                    came.claim_member,
                    gone.claim_member,
                    r.entity_id,
                    r,
                ),
                RegionRow::Other => came == m && gone == m,
            }
        }),
{
    match row {
        RegionRow::Action(r) => {
            let all = m.actions(r.entity_id);
            let f = is_other_action(r.auto_id);
            let rest = all.filter(f);
            lemma_filter_keeps(all, f, a);
            let more = rest.push(r);
            assert(more[rest.len() as int] == r);
            if rest.contains(a) {
                let k = choose|k: int| 0 <= k < rest.len() && rest[k] == a;
                assert(more[k] == a);
            }
            assert(!Seq::<PlayerActionRow>::empty().contains(a));
            if rest.len() == 0 {
                assert(!rest.contains(a));
            }
        },
        RegionRow::StatDesc(r) => {
            let all = m.character_stat_desc;
            let f = is_other_stat(r.stat_type);
            let rest = all.filter(f);
            let more = rest.push(r);
            assert forall|d: CharacterStatDescRow| #[trigger] rest.contains(d) <==> all.contains(d) && d.stat_type
                != r.stat_type by {
                lemma_filter_keeps(all, f, d);
            }
            assert forall|d: CharacterStatDescRow|
                d.stat_type != r.stat_type implies (#[trigger] more.contains(d) <==> all.contains(d)) by {
                if rest.contains(d) {
                    let k = choose|k: int| 0 <= k < rest.len() && rest[k] == d;
                    assert(more[k] == d);
                }
                lemma_filter_keeps(all, f, d);
            }
        },
        _ => {},
    }
}

/// What a filtered list has.
proof fn lemma_filter_keeps<T>(s: Seq<T>, f: spec_fn(T) -> bool, x: T)
    ensures
        s.filter(f).contains(x) <==> s.contains(x) && f(x),
{
    if s.contains(x) && f(x) {
        let i = choose|i: int| 0 <= i < s.len() && s[i] == x;
        s.lemma_filter_contains(f, i);
    }
    if s.filter(f).contains(x) {
        let i = choose|i: int| 0 <= i < s.filter(f).len() && s.filter(f)[i] == x;
        s.lemma_filter_pred(f, i);
        s.lemma_filter_contains_rev(f, x);
    }
}

/// A row of a region is read by the table it stands in, and is nothing in any
/// other.
pub proof fn law_region_rows_are_read_by_their_table(cols: ColMaps, table: Seq<char>, cells: Seq<Cell>, row: RegionRow)
    requires
        reads_region(cols, table, cells, row),
    ensures
        row is Username <==> table == "player_username_state"@,
        row is State <==> table == "player_state"@,
        row is Mobile <==> table == "mobile_entity_state"@,
        row is Stamina <==> table == "stamina_state"@,
        row is Buffs <==> table == "active_buff_state"@,
        row is StatDesc <==> table == "character_stat_desc"@,
        row is Stats <==> table == "character_stats_state"@,
        row is Action <==> table == "player_action_state"@,
        row is Resource <==> table == "resource_state"@,
        row is Desc <==> table == "resource_desc"@,
        row is Recipe <==> table == "extraction_recipe_desc"@,
        row is Timer <==> table == "resource_growth_timer"@,
        row is Growth <==> table == "growth_state"@,
        row is Claim <==> table == "claim_state"@,
        row is Member <==> table == "claim_member_state"@,
{
    reveal_strlit("player_username_state");
    reveal_strlit("player_state");
    reveal_strlit("mobile_entity_state");
    reveal_strlit("stamina_state");
    reveal_strlit("active_buff_state");
    reveal_strlit("character_stat_desc");
    reveal_strlit("character_stats_state");
    reveal_strlit("player_action_state");
    reveal_strlit("resource_state");
    reveal_strlit("resource_desc");
    reveal_strlit("extraction_recipe_desc");
    reveal_strlit("resource_growth_timer");
    reveal_strlit("growth_state");
    reveal_strlit("claim_state");
    reveal_strlit("claim_member_state");
    assert("player_username_state"@.len() == 21);
    assert("player_state"@.len() == 12);
    assert("mobile_entity_state"@.len() == 19);
    assert("stamina_state"@.len() == 13);
    assert("active_buff_state"@.len() == 17);
    assert("character_stat_desc"@.len() == 19);
    assert("character_stats_state"@.len() == 21);
    assert("player_action_state"@.len() == 19);
    assert("resource_state"@.len() == 14);
    assert("resource_desc"@.len() == 13);
    assert("extraction_recipe_desc"@.len() == 22);
    assert("resource_growth_timer"@.len() == 21);
    assert("growth_state"@.len() == 12);
    assert("claim_state"@.len() == 11);
    assert("claim_member_state"@.len() == 18);
    assert("mobile_entity_state"@[0] != "character_stat_desc"@[0]);
    assert("player_username_state"@[0] != "character_stats_state"@[0]);
    assert("mobile_entity_state"@[0] != "player_action_state"@[0]);
    assert("character_stat_desc"@[0] != "player_action_state"@[0]);
    assert("stamina_state"@[0] != "resource_desc"@[0]);
    assert("player_username_state"@[0] != "resource_growth_timer"@[0]);
    assert("character_stats_state"@[0] != "resource_growth_timer"@[0]);
    assert("player_state"@[0] != "growth_state"@[0]);
}

/// A table in which one row goes and another comes leaves what the new row says:
/// the old row goes first, so that it takes nothing of the new one away.
pub proof fn law_rows_go_before_others_come(before: StoreModel, after: StoreModel, cols: ColMaps, t: LiveTable)
    requires
        table_done(before, after, cols, t),
        t.deletes@.len() == 1,
        t.inserts@.len() == 1,
        t.deletes@[0].cells matches Some(c) && region_error(cols, t.name@, c@) is None,
        t.inserts@[0].cells matches Some(c) && region_error(cols, t.name@, c@) is None,
    ensures
        exists|went: RegionRow, came: RegionRow|
            #![trigger before.without_row(went).with_row(came)]
            reads_region(cols, t.name@, t.deletes@[0].cells->Some_0@, went) && reads_region(
                cols,
                t.name@,
                t.inserts@[0].cells->Some_0@,
                came,
            ) && after == before.without_row(went).with_row(came),
{
    let states = choose|states: Seq<StoreModel>| #[trigger]
        store_through(states, cols, t, changes_in(t)) && states.first() == before && states.last() == after;
    assert(row_done(states[0], states[1], cols, t.name@, change_at(t, 0).0, change_at(t, 0).1));
    assert(row_done(states[1], states[2], cols, t.name@, change_at(t, 1).0, change_at(t, 1).1));
    let went = choose|row: RegionRow| #[trigger]
        reads_region(cols, t.name@, t.deletes@[0].cells->Some_0@, row) && states[1] == states[0].without_row(row);
    let came = choose|row: RegionRow| #[trigger]
        reads_region(cols, t.name@, t.inserts@[0].cells->Some_0@, row) && states[2] == states[1].with_row(row);
    assert(after == before.without_row(went).with_row(came));
}

/// A table without rows changes nothing, and so does a row that cannot be read.
pub proof fn law_unreadable_rows_change_nothing(
    before: StoreModel,
    after: StoreModel,
    cols: ColMaps,
    t: LiveTable,
)
    requires
        table_done(before, after, cols, t),
        forall|i: int|
            0 <= i < t.deletes@.len() ==> ((#[trigger] t.deletes@[i]).cells matches Some(c) ==> region_error(
                cols,
                t.name@,
                c@,
            ) is Some),
        forall|i: int|
            0 <= i < t.inserts@.len() ==> ((#[trigger] t.inserts@[i]).cells matches Some(c) ==> region_error(
                cols,
                t.name@,
                c@,
            ) is Some),
    ensures
        after == before,
{
    let states = choose|states: Seq<StoreModel>| #[trigger]
        store_through(states, cols, t, changes_in(t)) && states.first() == before && states.last() == after;
    lemma_nothing_changes(states, cols, t, changes_in(t));
}

proof fn lemma_nothing_changes(states: Seq<StoreModel>, cols: ColMaps, t: LiveTable, n: int)
    requires
        store_through(states, cols, t, changes_in(t)),
        0 <= n <= changes_in(t),
        forall|i: int|
            0 <= i < t.deletes@.len() ==> ((#[trigger] t.deletes@[i]).cells matches Some(c) ==> region_error(
                cols,
                t.name@,
                c@,
            ) is Some),
        forall|i: int|
            0 <= i < t.inserts@.len() ==> ((#[trigger] t.inserts@[i]).cells matches Some(c) ==> region_error(
                cols,
                t.name@,
                c@,
            ) is Some),
    ensures
        states[n] == states[0],
    decreases n,
{
    if n > 0 {
        lemma_nothing_changes(states, cols, t, n - 1);
        assert(row_done(states[n - 1], states[n - 1 + 1], cols, t.name@, change_at(t, n - 1).0, change_at(t, n - 1).1));
    }
}

/// What a resource leaves behind when it is destroyed is watched for, and nothing
/// else is.
pub proof fn law_what_is_left_behind_is_watched_for(
    descs: Map<u64, ResourceDescRow>,
    k: u64,
    d: ResourceDescRow,
    resource_id: i32,
)
    ensures
        d.on_destroy_yield_resource_id != 0 ==> is_yielded(descs.insert(k, d), d.on_destroy_yield_resource_id),
        is_yielded(descs.insert(k, d), resource_id) ==> resource_id == d.on_destroy_yield_resource_id || is_yielded(
            descs,
            resource_id,
        ),
        !is_yielded(Map::empty(), resource_id),
        !is_yielded(descs, 0),
{
    let more = descs.insert(k, d);
    assert(more.dom().contains(k));
    if is_yielded(more, resource_id) {
        let j = choose|j: u64| #[trigger]
            more.dom().contains(j) && more[j].on_destroy_yield_resource_id == resource_id;
        if j != k {
            assert(descs.dom().contains(j));
        }
    }
}

} // verus!
