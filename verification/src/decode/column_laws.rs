//! Laws of the rows of mirrored tables: each field of a row is what stands in
//! the column of its name.

use vstd::prelude::*;

use crate::cell::{
    BuffModel, Cell, CraftedItemStack, DeployableKind, PassiveCraftStatus, Pocket, Single, action_in, buff_models,
    buffs_in, consumed_in, craft_status_in, crafted_in, experiences_in, i16_in, i16s_in, i32s_in, kind_in,
    location_in, opt_i32_in, opt_u64_in, pockets_in, schedule_in, singles_in, snake_variant_in, storage_in,
    timestamp_in, u16_in, u32_in, u64s_in, u8_in, u8s_in, variant_in,
};
use crate::decode::columns::{
    ActiveBuffCols, BuildingCols, BuildingDescCols, BuildingNicknameCols, CharacterStatDescCols, CharacterStatsCols,
    ClaimCols, ClaimLocalCols, ClaimMemberCols, ClaimTechDescCols, ClaimTechStateCols, ClaimTileCostCols,
    CraftingRecipeDescCols, DeployableCols, DeployableDescCols, DimensionNetworkCols, ExperienceCols,
    ExtractionRecipeCols, GrowthCols, InventoryCols, LocationCols, MobileEntityCols, PassiveCraftCols,
    PlayerActionCols, PlayerHousingCols, PlayerHousingDescCols, PlayerStateCols, PlayerUsernameCols,
    ProgressiveActionCols, PublicProgressiveActionCols, RentCols, ResourceCols, ResourceDescCols,
    ResourceGrowthTimerCols, ResourceHealthCols, SkillDescCols, StaminaCols, StorageLogCols,
};
use crate::decode::rows::{
    ActiveBuffRow, BuildingDescRow, BuildingNicknameRow, BuildingRow, CharacterStatDescRow, CharacterStatsRow,
    ClaimLocalRow, ClaimMemberRow, ClaimRow, ClaimTechDescRow, ClaimTechStateRow, ClaimTileCostRow,
    CraftingRecipeDescRow, DeployableDescRow, DeployableRow, DimensionNetworkRow, ExperienceRow, ExtractionRecipeRow,
    GrowthRow, InventoryRow, LocationRow, MobileEntityRow, PassiveCraftRow, PlayerActionRow, PlayerHousingDescRow,
    PlayerHousingRow, PlayerStateRow, PlayerUsernameRow, ProgressiveActionRow, PublicProgressiveActionRow, RentRow,
    ResourceDescRow, ResourceGrowthTimerRow, ResourceHealthRow, ResourceRow, SkillDescRow, StaminaRow, StorageLogRow,
};
use crate::le_bytes::from_le;
use crate::roads::decode::{
    ClaimStateRoadsCols, ClaimStateRoadsRow, ClaimTileCols, ClaimTileRow, LocationRoadsCols, LocationRoadsRow,
    PavedTileCols, PavedTileRow, PavingDescCols, PavingDescRow, RegionNameCols, RegionNameRow, TerraformRecipeCols,
    TerraformRecipeRow, TerrainChunkCols, TerrainChunkRow, WorldRegionCols, WorldRegionRow,
};
use crate::schema::{
    field_from, is_named, stands_at, table_from, DecodeError, MirroredField, MirroredSchema, MirroredTable,
};

verus! {

/// Whether a column is the first of a name in the first table of a name.
pub open spec fn is_column(schema: MirroredSchema, table: Seq<char>, name: Seq<char>, i: int) -> bool {
    exists|t: int|
        0 <= t < schema.tables@.len() && (#[trigger] schema.tables@[t]).name@ == table && (forall|u: int|
            0 <= u < t ==> (#[trigger] schema.tables@[u]).name@ != table) && (schema.tables@[t].fields matches Some(f)
            && is_field(f@, name, i))
}

/// Whether a column is the first of a name.
pub open spec fn is_field(f: Seq<MirroredField>, name: Seq<char>, i: int) -> bool {
    &&& 0 <= i < f.len()
    &&& is_named(f[i], name)
    &&& forall|j: int| 0 <= j < i ==> !is_named(#[trigger] f[j], name)
}

/// Whether a cell holds an id: its eight bytes, the lowest first.
pub open spec fn is_id(cell: Cell, v: u64) -> bool {
    cell matches Cell::Bytea(Some(b)) && b@.len() == 8 && v == from_le(b@) as u64
}

/// Whether a cell holds a text.
pub open spec fn is_text(cell: Cell, v: Seq<char>) -> bool {
    cell matches Cell::Text(Some(t)) && t@ == v
}

/// Whether a cell holds a number in single precision, or one that is rounded to
/// it.
pub open spec fn is_single(cell: Cell, v: Single) -> bool {
    cell == Cell::Real(Some(v)) || cell == Cell::DoublePrecision(Some(v))
}

/// The first table of a name.
proof fn lemma_table(tables: Seq<MirroredTable>, name: Seq<char>, from: int, t: int)
    requires
        0 <= from <= t < tables.len(),
        tables[t].name@ == name,
        forall|u: int| from <= u < t ==> (#[trigger] tables[u]).name@ != name,
    ensures
        table_from(tables, name, from) == Some(t),
    decreases t - from,
{
    if from < t {
        lemma_table(tables, name, from + 1, t);
    }
}

/// The first column of a name.
proof fn lemma_field(f: Seq<MirroredField>, name: Seq<char>, from: int, i: int)
    requires
        0 <= from <= i < f.len(),
        is_named(f[i], name),
        forall|j: int| from <= j < i ==> !is_named(#[trigger] f[j], name),
    ensures
        field_from(f, name, from) == Some(i),
    decreases i - from,
{
    if from < i {
        assert(!is_named(f[from], name));
        lemma_field(f, name, from + 1, i);
    }
}

/// A column is found where it stands.
proof fn lemma_column(schema: MirroredSchema, table: &'static str, name: &'static str, c: usize)
    requires
        stands_at(schema, table, name, c),
    ensures
        forall|i: int| #[trigger] is_column(schema, table@, name@, i) ==> i == c,
{
    assert forall|i: int| #[trigger] is_column(schema, table@, name@, i) implies i == c by {
        let t = choose|t: int|
            0 <= t < schema.tables@.len() && (#[trigger] schema.tables@[t]).name@ == table@ && (forall|u: int|
                0 <= u < t ==> (#[trigger] schema.tables@[u]).name@ != table@) && (
            schema.tables@[t].fields matches Some(f) && is_field(f@, name@, i));
        lemma_table(schema.tables@, table@, 0, t);
        lemma_field(schema.tables@[t].fields->Some_0@, name@, 0, i);
    }
}

/// A row of `claim_state` has in each field what stands in the column of that name.
pub proof fn law_claim_rows_follow_their_columns(
    schema: MirroredSchema,
    cols: ClaimCols,
    cells: Seq<Cell>,
    row: ClaimRow,
)
    requires
        cols.found(schema),
        row.reads(cells, cols),
    ensures
        forall|i: int| #[trigger]
            is_column(schema, "claim_state"@, "entity_id"@, i) ==> is_id(cells[i], row.entity_id),
        forall|i: int| #[trigger]
            is_column(schema, "claim_state"@, "owner_player_entity_id"@, i) ==>
                is_id(cells[i], row.owner_player_entity_id),
        forall|i: int| #[trigger]
            is_column(schema, "claim_state"@, "owner_building_entity_id"@, i) ==>
                is_id(cells[i], row.owner_building_entity_id),
        forall|i: int| #[trigger]
            is_column(schema, "claim_state"@, "name"@, i) ==> is_text(cells[i], row.name@),
        forall|i: int| #[trigger]
            is_column(schema, "claim_state"@, "neutral"@, i) ==> cells[i] == Cell::Bool(Some(row.neutral)),
{
    lemma_column(schema, "claim_state", "entity_id", cols.entity_id);
    lemma_column(schema, "claim_state", "owner_player_entity_id", cols.owner_player_entity_id);
    lemma_column(schema, "claim_state", "owner_building_entity_id", cols.owner_building_entity_id);
    lemma_column(schema, "claim_state", "name", cols.name);
    lemma_column(schema, "claim_state", "neutral", cols.neutral);
}

/// A row of `building_state` has in each field what stands in the column of that name.
pub proof fn law_building_rows_follow_their_columns(
    schema: MirroredSchema,
    cols: BuildingCols,
    cells: Seq<Cell>,
    row: BuildingRow,
)
    requires
        cols.found(schema),
        row.reads(cells, cols),
    ensures
        forall|i: int| #[trigger]
            is_column(schema, "building_state"@, "entity_id"@, i) ==> is_id(cells[i], row.entity_id),
        forall|i: int| #[trigger]
            is_column(schema, "building_state"@, "claim_entity_id"@, i) ==> is_id(cells[i], row.claim_entity_id),
        forall|i: int| #[trigger]
            is_column(schema, "building_state"@, "building_description_id"@, i) ==> cells[i]
                == Cell::Integer(Some(row.building_description_id)),
{
    lemma_column(schema, "building_state", "entity_id", cols.entity_id);
    lemma_column(schema, "building_state", "claim_entity_id", cols.claim_entity_id);
    lemma_column(schema, "building_state", "building_description_id", cols.building_description_id);
}

/// A row of `building_desc` has in each field what stands in the column of that name.
pub proof fn law_building_desc_rows_follow_their_columns(
    schema: MirroredSchema,
    cols: BuildingDescCols,
    cells: Seq<Cell>,
    row: BuildingDescRow,
)
    requires
        cols.found(schema),
        row.reads(cells, cols),
    ensures
        forall|i: int| #[trigger]
            is_column(schema, "building_desc"@, "id"@, i) ==> cells[i] == Cell::Integer(Some(row.id)),
        forall|i: int| #[trigger]
            is_column(schema, "building_desc"@, "name"@, i) ==> is_text(cells[i], row.name@),
        forall|i: int| #[trigger]
            is_column(schema, "building_desc"@, "functions"@, i) ==> storage_in(cells[i])
                == Ok::<bool, DecodeError>(row.is_storage),
{
    lemma_column(schema, "building_desc", "id", cols.id);
    lemma_column(schema, "building_desc", "name", cols.name);
    lemma_column(schema, "building_desc", "functions", cols.functions);
}

/// A row of `building_nickname_state` has in each field what stands in the column of that name.
pub proof fn law_building_nickname_rows_follow_their_columns(
    schema: MirroredSchema,
    cols: BuildingNicknameCols,
    cells: Seq<Cell>,
    row: BuildingNicknameRow,
)
    requires
        cols.found(schema),
        row.reads(cells, cols),
    ensures
        forall|i: int| #[trigger]
            is_column(schema, "building_nickname_state"@, "entity_id"@, i) ==> is_id(cells[i], row.entity_id),
        forall|i: int| #[trigger]
            is_column(schema, "building_nickname_state"@, "nickname"@, i) ==> is_text(cells[i], row.nickname@),
{
    lemma_column(schema, "building_nickname_state", "entity_id", cols.entity_id);
    lemma_column(schema, "building_nickname_state", "nickname", cols.nickname);
}

/// A row of `inventory_state` has in each field what stands in the column of that name.
pub proof fn law_inventory_rows_follow_their_columns(
    schema: MirroredSchema,
    cols: InventoryCols,
    cells: Seq<Cell>,
    row: InventoryRow,
)
    requires
        cols.found(schema),
        row.reads(cells, cols),
    ensures
        forall|i: int| #[trigger]
            is_column(schema, "inventory_state"@, "entity_id"@, i) ==> is_id(cells[i], row.entity_id),
        forall|i: int| #[trigger]
            is_column(schema, "inventory_state"@, "pockets"@, i) ==> pockets_in(cells[i])
                == Ok::<Seq<Pocket>, DecodeError>(row.pockets@),
        forall|i: int| #[trigger]
            is_column(schema, "inventory_state"@, "inventory_index"@, i) ==> cells[i]
                == Cell::Integer(Some(row.inventory_index)),
        forall|i: int| #[trigger]
            is_column(schema, "inventory_state"@, "cargo_index"@, i) ==> cells[i]
                == Cell::Integer(Some(row.cargo_index)),
        forall|i: int| #[trigger]
            is_column(schema, "inventory_state"@, "owner_entity_id"@, i) ==> is_id(cells[i], row.owner_entity_id),
        forall|i: int| #[trigger]
            is_column(schema, "inventory_state"@, "player_owner_entity_id"@, i) ==>
                is_id(cells[i], row.player_owner_entity_id),
{
    lemma_column(schema, "inventory_state", "entity_id", cols.entity_id);
    lemma_column(schema, "inventory_state", "pockets", cols.pockets);
    lemma_column(schema, "inventory_state", "inventory_index", cols.inventory_index);
    lemma_column(schema, "inventory_state", "cargo_index", cols.cargo_index);
    lemma_column(schema, "inventory_state", "owner_entity_id", cols.owner_entity_id);
    lemma_column(schema, "inventory_state", "player_owner_entity_id", cols.player_owner_entity_id);
}

/// A row of `location_state` has in each field what stands in the column of that name.
pub proof fn law_location_rows_follow_their_columns(
    schema: MirroredSchema,
    cols: LocationCols,
    cells: Seq<Cell>,
    row: LocationRow,
)
    requires
        cols.found(schema),
        row.reads(cells, cols),
    ensures
        forall|i: int| #[trigger]
            is_column(schema, "location_state"@, "entity_id"@, i) ==> is_id(cells[i], row.entity_id),
        forall|i: int| #[trigger]
            is_column(schema, "location_state"@, "x"@, i) ==> cells[i] == Cell::Integer(Some(row.x)),
        forall|i: int| #[trigger]
            is_column(schema, "location_state"@, "z"@, i) ==> cells[i] == Cell::Integer(Some(row.z)),
        forall|i: int| #[trigger]
            is_column(schema, "location_state"@, "dimension"@, i) ==> u32_in(cells[i], "location.dimension")
                == Ok::<u32, DecodeError>(row.dimension),
{
    lemma_column(schema, "location_state", "entity_id", cols.entity_id);
    lemma_column(schema, "location_state", "x", cols.x);
    lemma_column(schema, "location_state", "z", cols.z);
    lemma_column(schema, "location_state", "dimension", cols.dimension);
}

/// A row of `resource_state` has in each field what stands in the column of that name.
pub proof fn law_resource_rows_follow_their_columns(
    schema: MirroredSchema,
    cols: ResourceCols,
    cells: Seq<Cell>,
    row: ResourceRow,
)
    requires
        cols.found(schema),
        row.reads(cells, cols),
    ensures
        forall|i: int| #[trigger]
            is_column(schema, "resource_state"@, "entity_id"@, i) ==> is_id(cells[i], row.entity_id),
        forall|i: int| #[trigger]
            is_column(schema, "resource_state"@, "resource_id"@, i) ==> cells[i]
                == Cell::Integer(Some(row.resource_id)),
        forall|i: int| #[trigger]
            is_column(schema, "resource_state"@, "direction_index"@, i) ==> cells[i]
                == Cell::Integer(Some(row.direction_index)),
{
    lemma_column(schema, "resource_state", "entity_id", cols.entity_id);
    lemma_column(schema, "resource_state", "resource_id", cols.resource_id);
    lemma_column(schema, "resource_state", "direction_index", cols.direction_index);
}

/// A row of `growth_state` has in each field what stands in the column of that name.
pub proof fn law_growth_rows_follow_their_columns(
    schema: MirroredSchema,
    cols: GrowthCols,
    cells: Seq<Cell>,
    row: GrowthRow,
)
    requires
        cols.found(schema),
        row.reads(cells, cols),
    ensures
        forall|i: int| #[trigger]
            is_column(schema, "growth_state"@, "entity_id"@, i) ==> is_id(cells[i], row.entity_id),
        forall|i: int| #[trigger]
            is_column(schema, "growth_state"@, "end_timestamp"@, i) ==> timestamp_in(cells[i], "growth.end_timestamp")
                == Ok::<i64, DecodeError>(row.end_timestamp_micros),
        forall|i: int| #[trigger]
            is_column(schema, "growth_state"@, "growth_recipe_id"@, i) ==> cells[i]
                == Cell::Integer(Some(row.growth_recipe_id)),
{
    lemma_column(schema, "growth_state", "entity_id", cols.entity_id);
    lemma_column(schema, "growth_state", "end_timestamp", cols.end_timestamp);
    lemma_column(schema, "growth_state", "growth_recipe_id", cols.growth_recipe_id);
}

/// A row of `resource_growth_timer` has in each field what stands in the column of that name.
pub proof fn law_resource_growth_timer_rows_follow_their_columns(
    schema: MirroredSchema,
    cols: ResourceGrowthTimerCols,
    cells: Seq<Cell>,
    row: ResourceGrowthTimerRow,
)
    requires
        cols.found(schema),
        row.reads(cells, cols),
    ensures
        forall|i: int| #[trigger]
            is_column(schema, "resource_growth_timer"@, "entity_id"@, i) ==> is_id(cells[i], row.entity_id),
        forall|i: int| #[trigger]
            is_column(schema, "resource_growth_timer"@, "scheduled_at"@, i) ==>
                schedule_in(cells[i], "growth_timer.scheduled_at")
                == Ok::<Option<i64>, DecodeError>(row.scheduled_at_micros),
        forall|i: int| #[trigger]
            is_column(schema, "resource_growth_timer"@, "growth_recipe_id"@, i) ==> cells[i]
                == Cell::Integer(Some(row.growth_recipe_id)),
{
    lemma_column(schema, "resource_growth_timer", "entity_id", cols.entity_id);
    lemma_column(schema, "resource_growth_timer", "scheduled_at", cols.scheduled_at);
    lemma_column(schema, "resource_growth_timer", "growth_recipe_id", cols.growth_recipe_id);
}

/// A row of `storage_log_state` has in each field what stands in the column of that name.
pub proof fn law_storage_log_rows_follow_their_columns(
    schema: MirroredSchema,
    cols: StorageLogCols,
    cells: Seq<Cell>,
    row: StorageLogRow,
)
    requires
        cols.found(schema),
        row.reads(cells, cols),
    ensures
        forall|i: int| #[trigger]
            is_column(schema, "storage_log_state"@, "data"@, i) ==> action_in(cells[i])
                == Ok::<(u8, i32, u8, i32), DecodeError>((row.action, row.item_id, row.item_type, row.quantity)),
        forall|i: int| #[trigger]
            is_column(schema, "storage_log_state"@, "id"@, i) ==> is_id(cells[i], row.id),
        forall|i: int| #[trigger]
            is_column(schema, "storage_log_state"@, "object_entity_id"@, i) ==> is_id(cells[i], row.storage_entity_id),
        forall|i: int| #[trigger]
            is_column(schema, "storage_log_state"@, "subject_entity_id"@, i) ==> is_id(cells[i], row.player_entity_id),
        forall|i: int| #[trigger]
            is_column(schema, "storage_log_state"@, "subject_name"@, i) ==> is_text(cells[i], row.player_username@),
        forall|i: int| #[trigger]
            is_column(schema, "storage_log_state"@, "timestamp"@, i) ==>
                timestamp_in(cells[i], "storage_log.timestamp")
                == Ok::<i64, DecodeError>(row.timestamp_micros),
        forall|i: int| #[trigger]
            is_column(schema, "storage_log_state"@, "days_since_epoch"@, i) ==> cells[i]
                == Cell::Integer(Some(row.days_since_epoch)),
{
    lemma_column(schema, "storage_log_state", "data", cols.data);
    lemma_column(schema, "storage_log_state", "id", cols.id);
    lemma_column(schema, "storage_log_state", "object_entity_id", cols.object_entity_id);
    lemma_column(schema, "storage_log_state", "subject_entity_id", cols.subject_entity_id);
    lemma_column(schema, "storage_log_state", "subject_name", cols.subject_name);
    lemma_column(schema, "storage_log_state", "timestamp", cols.timestamp);
    lemma_column(schema, "storage_log_state", "days_since_epoch", cols.days_since_epoch);
}

/// A row of `dimension_network_state` has in each field what stands in the column of that name.
pub proof fn law_dimension_network_rows_follow_their_columns(
    schema: MirroredSchema,
    cols: DimensionNetworkCols,
    cells: Seq<Cell>,
    row: DimensionNetworkRow,
)
    requires
        cols.found(schema),
        row.reads(cells, cols),
    ensures
        forall|i: int| #[trigger]
            is_column(schema, "dimension_network_state"@, "entity_id"@, i) ==> is_id(cells[i], row.entity_id),
        forall|i: int| #[trigger]
            is_column(schema, "dimension_network_state"@, "building_id"@, i) ==> is_id(cells[i], row.building_id),
        forall|i: int| #[trigger]
            is_column(schema, "dimension_network_state"@, "claim_entity_id"@, i) ==>
                is_id(cells[i], row.claim_entity_id),
        forall|i: int| #[trigger]
            is_column(schema, "dimension_network_state"@, "rent_entity_id"@, i) ==>
                is_id(cells[i], row.rent_entity_id),
        forall|i: int| #[trigger]
            is_column(schema, "dimension_network_state"@, "entrance_dimension_id"@, i) ==>
                u32_in(cells[i], "dimension_network.entrance_dimension_id")
                == Ok::<u32, DecodeError>(row.entrance_dimension_id),
        forall|i: int| #[trigger]
            is_column(schema, "dimension_network_state"@, "is_collapsed"@, i) ==> cells[i]
                == Cell::Bool(Some(row.is_collapsed)),
{
    lemma_column(schema, "dimension_network_state", "entity_id", cols.entity_id);
    lemma_column(schema, "dimension_network_state", "building_id", cols.building_id);
    lemma_column(schema, "dimension_network_state", "claim_entity_id", cols.claim_entity_id);
    lemma_column(schema, "dimension_network_state", "rent_entity_id", cols.rent_entity_id);
    lemma_column(schema, "dimension_network_state", "entrance_dimension_id", cols.entrance_dimension_id);
    lemma_column(schema, "dimension_network_state", "is_collapsed", cols.is_collapsed);
}

/// A row of `player_username_state` has in each field what stands in the column of that name.
pub proof fn law_player_username_rows_follow_their_columns(
    schema: MirroredSchema,
    cols: PlayerUsernameCols,
    cells: Seq<Cell>,
    row: PlayerUsernameRow,
)
    requires
        cols.found(schema),
        row.reads(cells, cols),
    ensures
        forall|i: int| #[trigger]
            is_column(schema, "player_username_state"@, "entity_id"@, i) ==> is_id(cells[i], row.entity_id),
        forall|i: int| #[trigger]
            is_column(schema, "player_username_state"@, "username"@, i) ==> is_text(cells[i], row.username@),
{
    lemma_column(schema, "player_username_state", "entity_id", cols.entity_id);
    lemma_column(schema, "player_username_state", "username", cols.username);
}

/// A row of `player_state` has in each field what stands in the column of that name.
pub proof fn law_player_state_rows_follow_their_columns(
    schema: MirroredSchema,
    cols: PlayerStateCols,
    cells: Seq<Cell>,
    row: PlayerStateRow,
)
    requires
        cols.found(schema),
        row.reads(cells, cols),
    ensures
        forall|i: int| #[trigger]
            is_column(schema, "player_state"@, "entity_id"@, i) ==> is_id(cells[i], row.entity_id),
        forall|i: int| #[trigger]
            is_column(schema, "player_state"@, "sign_in_timestamp"@, i) ==> cells[i]
                == Cell::Integer(Some(row.sign_in_timestamp)),
        forall|i: int| #[trigger]
            is_column(schema, "player_state"@, "session_start_timestamp"@, i) ==> cells[i]
                == Cell::Integer(Some(row.session_start_timestamp)),
        forall|i: int| #[trigger]
            is_column(schema, "player_state"@, "signed_in"@, i) ==> cells[i] == Cell::Bool(Some(row.signed_in)),
{
    lemma_column(schema, "player_state", "entity_id", cols.entity_id);
    lemma_column(schema, "player_state", "sign_in_timestamp", cols.sign_in_timestamp);
    lemma_column(schema, "player_state", "session_start_timestamp", cols.session_start_timestamp);
    lemma_column(schema, "player_state", "signed_in", cols.signed_in);
}

/// A row of `mobile_entity_state` has in each field what stands in the column of that name.
pub proof fn law_mobile_entity_rows_follow_their_columns(
    schema: MirroredSchema,
    cols: MobileEntityCols,
    cells: Seq<Cell>,
    row: MobileEntityRow,
)
    requires
        cols.found(schema),
        row.reads(cells, cols),
    ensures
        forall|i: int| #[trigger]
            is_column(schema, "mobile_entity_state"@, "entity_id"@, i) ==> is_id(cells[i], row.entity_id),
        forall|i: int| #[trigger]
            is_column(schema, "mobile_entity_state"@, "timestamp"@, i) ==> is_id(cells[i], row.timestamp_ms),
        forall|i: int| #[trigger]
            is_column(schema, "mobile_entity_state"@, "location_x"@, i) ==> cells[i]
                == Cell::Integer(Some(row.location_x)),
        forall|i: int| #[trigger]
            is_column(schema, "mobile_entity_state"@, "location_z"@, i) ==> cells[i]
                == Cell::Integer(Some(row.location_z)),
        forall|i: int| #[trigger]
            is_column(schema, "mobile_entity_state"@, "destination_x"@, i) ==> cells[i]
                == Cell::Integer(Some(row.destination_x)),
        forall|i: int| #[trigger]
            is_column(schema, "mobile_entity_state"@, "destination_z"@, i) ==> cells[i]
                == Cell::Integer(Some(row.destination_z)),
        forall|i: int| #[trigger]
            is_column(schema, "mobile_entity_state"@, "dimension"@, i) ==> u32_in(cells[i], "mobile_entity.dimension")
                == Ok::<u32, DecodeError>(row.dimension),
        forall|i: int| #[trigger]
            is_column(schema, "mobile_entity_state"@, "is_walking"@, i) ==> cells[i]
                == Cell::Bool(Some(row.is_walking)),
{
    lemma_column(schema, "mobile_entity_state", "entity_id", cols.entity_id);
    lemma_column(schema, "mobile_entity_state", "timestamp", cols.timestamp);
    lemma_column(schema, "mobile_entity_state", "location_x", cols.location_x);
    lemma_column(schema, "mobile_entity_state", "location_z", cols.location_z);
    lemma_column(schema, "mobile_entity_state", "destination_x", cols.destination_x);
    lemma_column(schema, "mobile_entity_state", "destination_z", cols.destination_z);
    lemma_column(schema, "mobile_entity_state", "dimension", cols.dimension);
    lemma_column(schema, "mobile_entity_state", "is_walking", cols.is_walking);
}

/// A row of `stamina_state` has in each field what stands in the column of that name.
pub proof fn law_stamina_rows_follow_their_columns(
    schema: MirroredSchema,
    cols: StaminaCols,
    cells: Seq<Cell>,
    row: StaminaRow,
)
    requires
        cols.found(schema),
        row.reads(cells, cols),
    ensures
        forall|i: int| #[trigger]
            is_column(schema, "stamina_state"@, "entity_id"@, i) ==> is_id(cells[i], row.entity_id),
        forall|i: int| #[trigger]
            is_column(schema, "stamina_state"@, "last_stamina_decrease_timestamp"@, i) ==>
                timestamp_in(cells[i], "stamina.last_stamina_decrease_timestamp")
                == Ok::<i64, DecodeError>(row.last_decrease_micros),
        forall|i: int| #[trigger]
            is_column(schema, "stamina_state"@, "stamina"@, i) ==> is_single(cells[i], row.stamina),
{
    lemma_column(schema, "stamina_state", "entity_id", cols.entity_id);
    lemma_column(schema, "stamina_state", "last_stamina_decrease_timestamp", cols.last_stamina_decrease_timestamp);
    lemma_column(schema, "stamina_state", "stamina", cols.stamina);
}

/// A row of `active_buff_state` has in each field what stands in the column of that name.
pub proof fn law_active_buff_rows_follow_their_columns(
    schema: MirroredSchema,
    cols: ActiveBuffCols,
    cells: Seq<Cell>,
    row: ActiveBuffRow,
)
    requires
        cols.found(schema),
        row.reads(cells, cols),
    ensures
        forall|i: int| #[trigger]
            is_column(schema, "active_buff_state"@, "entity_id"@, i) ==> is_id(cells[i], row.entity_id),
        forall|i: int| #[trigger]
            is_column(schema, "active_buff_state"@, "active_buffs"@, i) ==> buffs_in(cells[i])
                == Ok::<Seq<BuffModel>, DecodeError>(buff_models(row.buffs@)),
{
    lemma_column(schema, "active_buff_state", "entity_id", cols.entity_id);
    lemma_column(schema, "active_buff_state", "active_buffs", cols.active_buffs);
}

/// A row of `player_action_state` has in each field what stands in the column of that name.
pub proof fn law_player_action_rows_follow_their_columns(
    schema: MirroredSchema,
    cols: PlayerActionCols,
    cells: Seq<Cell>,
    row: PlayerActionRow,
)
    requires
        cols.found(schema),
        row.reads(cells, cols),
    ensures
        forall|i: int| #[trigger]
            is_column(schema, "player_action_state"@, "auto_id"@, i) ==> is_id(cells[i], row.auto_id),
        forall|i: int| #[trigger]
            is_column(schema, "player_action_state"@, "entity_id"@, i) ==> is_id(cells[i], row.entity_id),
        forall|i: int| #[trigger]
            is_column(schema, "player_action_state"@, "start_time"@, i) ==> is_id(cells[i], row.start_time_ms),
        forall|i: int| #[trigger]
            is_column(schema, "player_action_state"@, "duration"@, i) ==> is_id(cells[i], row.duration_ms),
        forall|i: int| #[trigger]
            is_column(schema, "player_action_state"@, "target"@, i) ==> opt_u64_in(cells[i], "player_action.target")
                == Ok::<Option<u64>, DecodeError>(row.target),
        forall|i: int| #[trigger]
            is_column(schema, "player_action_state"@, "recipe_id"@, i) ==>
                opt_i32_in(cells[i], "player_action.recipe_id")
                == Ok::<Option<i32>, DecodeError>(row.recipe_id),
        forall|i: int| #[trigger]
            is_column(schema, "player_action_state"@, "action_type"@, i) ==>
                variant_in(cells[i], "player_action.action_type")
                == Ok::<Seq<char>, DecodeError>(row.action_type@),
        forall|i: int| #[trigger]
            is_column(schema, "player_action_state"@, "layer"@, i) ==> variant_in(cells[i], "player_action.layer")
                == Ok::<Seq<char>, DecodeError>(row.layer@),
        forall|i: int| #[trigger]
            is_column(schema, "player_action_state"@, "last_action_result"@, i) ==>
                variant_in(cells[i], "player_action.last_action_result")
                == Ok::<Seq<char>, DecodeError>(row.last_action_result@),
        forall|i: int| #[trigger]
            is_column(schema, "player_action_state"@, "client_cancel"@, i) ==> cells[i]
                == Cell::Bool(Some(row.client_cancel)),
{
    lemma_column(schema, "player_action_state", "auto_id", cols.auto_id);
    lemma_column(schema, "player_action_state", "entity_id", cols.entity_id);
    lemma_column(schema, "player_action_state", "start_time", cols.start_time);
    lemma_column(schema, "player_action_state", "duration", cols.duration);
    lemma_column(schema, "player_action_state", "target", cols.target);
    lemma_column(schema, "player_action_state", "recipe_id", cols.recipe_id);
    lemma_column(schema, "player_action_state", "action_type", cols.action_type);
    lemma_column(schema, "player_action_state", "layer", cols.layer);
    lemma_column(schema, "player_action_state", "last_action_result", cols.last_action_result);
    lemma_column(schema, "player_action_state", "client_cancel", cols.client_cancel);
}

/// A row of `resource_health_state` has in each field what stands in the column of that name.
pub proof fn law_resource_health_rows_follow_their_columns(
    schema: MirroredSchema,
    cols: ResourceHealthCols,
    cells: Seq<Cell>,
    row: ResourceHealthRow,
)
    requires
        cols.found(schema),
        row.reads(cells, cols),
    ensures
        forall|i: int| #[trigger]
            is_column(schema, "resource_health_state"@, "entity_id"@, i) ==> is_id(cells[i], row.entity_id),
        forall|i: int| #[trigger]
            is_column(schema, "resource_health_state"@, "health"@, i) ==> cells[i] == Cell::Integer(Some(row.health)),
{
    lemma_column(schema, "resource_health_state", "entity_id", cols.entity_id);
    lemma_column(schema, "resource_health_state", "health", cols.health);
}

/// A row of `resource_desc` has in each field what stands in the column of that name.
pub proof fn law_resource_desc_rows_follow_their_columns(
    schema: MirroredSchema,
    cols: ResourceDescCols,
    cells: Seq<Cell>,
    row: ResourceDescRow,
)
    requires
        cols.found(schema),
        row.reads(cells, cols),
    ensures
        forall|i: int| #[trigger]
            is_column(schema, "resource_desc"@, "id"@, i) ==> cells[i] == Cell::Integer(Some(row.id)),
        forall|i: int| #[trigger]
            is_column(schema, "resource_desc"@, "name"@, i) ==> is_text(cells[i], row.name@),
        forall|i: int| #[trigger]
            is_column(schema, "resource_desc"@, "max_health"@, i) ==> cells[i] == Cell::Integer(Some(row.max_health)),
        forall|i: int| #[trigger]
            is_column(schema, "resource_desc"@, "despawn_time"@, i) ==> is_single(cells[i], row.despawn_time),
        forall|i: int| #[trigger]
            is_column(schema, "resource_desc"@, "on_destroy_yield_resource_id"@, i) ==> cells[i]
                == Cell::Integer(Some(row.on_destroy_yield_resource_id)),
        forall|i: int| #[trigger]
            is_column(schema, "resource_desc"@, "scheduled_respawn_time"@, i) ==>
                is_single(cells[i], row.scheduled_respawn_time),
{
    lemma_column(schema, "resource_desc", "id", cols.id);
    lemma_column(schema, "resource_desc", "name", cols.name);
    lemma_column(schema, "resource_desc", "max_health", cols.max_health);
    lemma_column(schema, "resource_desc", "despawn_time", cols.despawn_time);
    lemma_column(schema, "resource_desc", "on_destroy_yield_resource_id", cols.on_destroy_yield_resource_id);
    lemma_column(schema, "resource_desc", "scheduled_respawn_time", cols.scheduled_respawn_time);
}

/// A row of `extraction_recipe_desc` has in each field what stands in the column of that name.
pub proof fn law_extraction_recipe_rows_follow_their_columns(
    schema: MirroredSchema,
    cols: ExtractionRecipeCols,
    cells: Seq<Cell>,
    row: ExtractionRecipeRow,
)
    requires
        cols.found(schema),
        row.reads(cells, cols),
    ensures
        forall|i: int| #[trigger]
            is_column(schema, "extraction_recipe_desc"@, "id"@, i) ==> cells[i] == Cell::Integer(Some(row.id)),
        forall|i: int| #[trigger]
            is_column(schema, "extraction_recipe_desc"@, "resource_id"@, i) ==> cells[i]
                == Cell::Integer(Some(row.resource_id)),
{
    lemma_column(schema, "extraction_recipe_desc", "id", cols.id);
    lemma_column(schema, "extraction_recipe_desc", "resource_id", cols.resource_id);
}

/// A row of `character_stat_desc` has in each field what stands in the column of that name.
pub proof fn law_character_stat_desc_rows_follow_their_columns(
    schema: MirroredSchema,
    cols: CharacterStatDescCols,
    cells: Seq<Cell>,
    row: CharacterStatDescRow,
)
    requires
        cols.found(schema),
        row.reads(cells, cols),
    ensures
        forall|i: int| #[trigger]
            is_column(schema, "character_stat_desc"@, "stat_type"@, i) ==> cells[i]
                == Cell::Integer(Some(row.stat_type)),
        forall|i: int| #[trigger]
            is_column(schema, "character_stat_desc"@, "name"@, i) ==> is_text(cells[i], row.name@),
{
    lemma_column(schema, "character_stat_desc", "stat_type", cols.stat_type);
    lemma_column(schema, "character_stat_desc", "name", cols.name);
}

/// A row of `character_stats_state` has in each field what stands in the column of that name.
pub proof fn law_character_stats_rows_follow_their_columns(
    schema: MirroredSchema,
    cols: CharacterStatsCols,
    cells: Seq<Cell>,
    row: CharacterStatsRow,
)
    requires
        cols.found(schema),
        row.reads(cells, cols),
    ensures
        forall|i: int| #[trigger]
            is_column(schema, "character_stats_state"@, "entity_id"@, i) ==> is_id(cells[i], row.entity_id),
        forall|i: int| #[trigger]
            is_column(schema, "character_stats_state"@, "values"@, i) ==>
                singles_in(cells[i], "character_stats.values")
                == Ok::<Seq<Single>, DecodeError>(row.values@),
{
    lemma_column(schema, "character_stats_state", "entity_id", cols.entity_id);
    lemma_column(schema, "character_stats_state", "values", cols.values);
}

/// A row of `deployable_state_v2` has in each field what stands in the column of that name.
pub proof fn law_deployable_rows_follow_their_columns(
    schema: MirroredSchema,
    cols: DeployableCols,
    cells: Seq<Cell>,
    row: DeployableRow,
)
    requires
        cols.found(schema),
        row.reads(cells, cols),
    ensures
        forall|i: int| #[trigger]
            is_column(schema, "deployable_state_v2"@, "entity_id"@, i) ==> is_id(cells[i], row.entity_id),
        forall|i: int| #[trigger]
            is_column(schema, "deployable_state_v2"@, "owner_id"@, i) ==> is_id(cells[i], row.owner_id),
        forall|i: int| #[trigger]
            is_column(schema, "deployable_state_v2"@, "claim_entity_id"@, i) ==> is_id(cells[i], row.claim_entity_id),
        forall|i: int| #[trigger]
            is_column(schema, "deployable_state_v2"@, "deployable_description_id"@, i) ==> cells[i]
                == Cell::Integer(Some(row.deployable_description_id)),
        forall|i: int| #[trigger]
            is_column(schema, "deployable_state_v2"@, "nickname"@, i) ==> is_text(cells[i], row.nickname@),
{
    lemma_column(schema, "deployable_state_v2", "entity_id", cols.entity_id);
    lemma_column(schema, "deployable_state_v2", "owner_id", cols.owner_id);
    lemma_column(schema, "deployable_state_v2", "claim_entity_id", cols.claim_entity_id);
    lemma_column(schema, "deployable_state_v2", "deployable_description_id", cols.deployable_description_id);
    lemma_column(schema, "deployable_state_v2", "nickname", cols.nickname);
}

/// A row of `deployable_desc` has in each field what stands in the column of that name.
pub proof fn law_deployable_desc_rows_follow_their_columns(
    schema: MirroredSchema,
    cols: DeployableDescCols,
    cells: Seq<Cell>,
    row: DeployableDescRow,
)
    requires
        cols.found(schema),
        row.reads(cells, cols),
    ensures
        forall|i: int| #[trigger]
            is_column(schema, "deployable_desc"@, "id"@, i) ==> cells[i] == Cell::Integer(Some(row.id)),
        forall|i: int| #[trigger]
            is_column(schema, "deployable_desc"@, "name"@, i) ==> is_text(cells[i], row.name@),
        forall|i: int| #[trigger]
            is_column(schema, "deployable_desc"@, "deployable_type"@, i) ==> kind_in(cells[i])
                == Ok::<DeployableKind, DecodeError>(row.kind),
{
    lemma_column(schema, "deployable_desc", "id", cols.id);
    lemma_column(schema, "deployable_desc", "name", cols.name);
    lemma_column(schema, "deployable_desc", "deployable_type", cols.deployable_type);
}

/// A row of `player_housing_state` has in each field what stands in the column of that name.
pub proof fn law_player_housing_rows_follow_their_columns(
    schema: MirroredSchema,
    cols: PlayerHousingCols,
    cells: Seq<Cell>,
    row: PlayerHousingRow,
)
    requires
        cols.found(schema),
        row.reads(cells, cols),
    ensures
        forall|i: int| #[trigger]
            is_column(schema, "player_housing_state"@, "entity_id"@, i) ==> is_id(cells[i], row.entity_id),
        forall|i: int| #[trigger]
            is_column(schema, "player_housing_state"@, "entrance_building_entity_id"@, i) ==>
                is_id(cells[i], row.entrance_building_entity_id),
        forall|i: int| #[trigger]
            is_column(schema, "player_housing_state"@, "network_entity_id"@, i) ==>
                is_id(cells[i], row.network_entity_id),
        forall|i: int| #[trigger]
            is_column(schema, "player_housing_state"@, "rank"@, i) ==> cells[i] == Cell::Integer(Some(row.rank)),
        forall|i: int| #[trigger]
            is_column(schema, "player_housing_state"@, "is_empty"@, i) ==> cells[i] == Cell::Bool(Some(row.is_empty)),
        forall|i: int| #[trigger]
            is_column(schema, "player_housing_state"@, "region_index"@, i) ==>
                u8_in(cells[i], "player_housing.region_index")
                == Ok::<u8, DecodeError>(row.region_index),
{
    lemma_column(schema, "player_housing_state", "entity_id", cols.entity_id);
    lemma_column(schema, "player_housing_state", "entrance_building_entity_id", cols.entrance_building_entity_id);
    lemma_column(schema, "player_housing_state", "network_entity_id", cols.network_entity_id);
    lemma_column(schema, "player_housing_state", "rank", cols.rank);
    lemma_column(schema, "player_housing_state", "is_empty", cols.is_empty);
    lemma_column(schema, "player_housing_state", "region_index", cols.region_index);
}

/// A row of `player_housing_desc` has in each field what stands in the column of that name.
pub proof fn law_player_housing_desc_rows_follow_their_columns(
    schema: MirroredSchema,
    cols: PlayerHousingDescCols,
    cells: Seq<Cell>,
    row: PlayerHousingDescRow,
)
    requires
        cols.found(schema),
        row.reads(cells, cols),
    ensures
        forall|i: int| #[trigger]
            is_column(schema, "player_housing_desc"@, "secondary_knowledge_id"@, i) ==> cells[i]
                == Cell::Integer(Some(row.secondary_knowledge_id)),
        forall|i: int| #[trigger]
            is_column(schema, "player_housing_desc"@, "rank"@, i) ==> cells[i] == Cell::Integer(Some(row.rank)),
        forall|i: int| #[trigger]
            is_column(schema, "player_housing_desc"@, "name"@, i) ==> is_text(cells[i], row.name@),
{
    lemma_column(schema, "player_housing_desc", "secondary_knowledge_id", cols.secondary_knowledge_id);
    lemma_column(schema, "player_housing_desc", "rank", cols.rank);
    lemma_column(schema, "player_housing_desc", "name", cols.name);
}

/// A row of `rent_state` has in each field what stands in the column of that name.
pub proof fn law_rent_rows_follow_their_columns(
    schema: MirroredSchema,
    cols: RentCols,
    cells: Seq<Cell>,
    row: RentRow,
)
    requires
        cols.found(schema),
        row.reads(cells, cols),
    ensures
        forall|i: int| #[trigger]
            is_column(schema, "rent_state"@, "entity_id"@, i) ==> is_id(cells[i], row.entity_id),
        forall|i: int| #[trigger]
            is_column(schema, "rent_state"@, "dimension_network_id"@, i) ==> is_id(cells[i], row.dimension_network_id),
        forall|i: int| #[trigger]
            is_column(schema, "rent_state"@, "claim_entity_id"@, i) ==> is_id(cells[i], row.claim_entity_id),
        forall|i: int| #[trigger]
            is_column(schema, "rent_state"@, "white_list"@, i) ==> u64s_in(cells[i], "rent.white_list")
                == Ok::<Seq<u64>, DecodeError>(row.white_list@),
        forall|i: int| #[trigger]
            is_column(schema, "rent_state"@, "active"@, i) ==> cells[i] == Cell::Bool(Some(row.active)),
{
    lemma_column(schema, "rent_state", "entity_id", cols.entity_id);
    lemma_column(schema, "rent_state", "dimension_network_id", cols.dimension_network_id);
    lemma_column(schema, "rent_state", "claim_entity_id", cols.claim_entity_id);
    lemma_column(schema, "rent_state", "white_list", cols.white_list);
    lemma_column(schema, "rent_state", "active", cols.active);
}

/// A row of `claim_local_state` has in each field what stands in the column of that name.
pub proof fn law_claim_local_rows_follow_their_columns(
    schema: MirroredSchema,
    cols: ClaimLocalCols,
    cells: Seq<Cell>,
    row: ClaimLocalRow,
)
    requires
        cols.found(schema),
        row.reads(cells, cols),
    ensures
        forall|i: int| #[trigger]
            is_column(schema, "claim_local_state"@, "location"@, i) ==> location_in(cells[i])
                == Ok::<(bool, i32, i32, u32), DecodeError>((row.has_location, row.location_x, row.location_z, row.location_dimension)),
        forall|i: int| #[trigger]
            is_column(schema, "claim_local_state"@, "entity_id"@, i) ==> is_id(cells[i], row.entity_id),
        forall|i: int| #[trigger]
            is_column(schema, "claim_local_state"@, "supplies"@, i) ==> cells[i] == Cell::Integer(Some(row.supplies)),
        forall|i: int| #[trigger]
            is_column(schema, "claim_local_state"@, "building_maintenance"@, i) ==>
                is_single(cells[i], row.building_maintenance),
        forall|i: int| #[trigger]
            is_column(schema, "claim_local_state"@, "num_tiles"@, i) ==> cells[i]
                == Cell::Integer(Some(row.num_tiles)),
        forall|i: int| #[trigger]
            is_column(schema, "claim_local_state"@, "treasury"@, i) ==> u32_in(cells[i], "claim_local.treasury")
                == Ok::<u32, DecodeError>(row.treasury),
        forall|i: int| #[trigger]
            is_column(schema, "claim_local_state"@, "supplies_purchase_threshold"@, i) ==>
                u32_in(cells[i], "claim_local.supplies_purchase_threshold")
                == Ok::<u32, DecodeError>(row.supplies_purchase_threshold),
        forall|i: int| #[trigger]
            is_column(schema, "claim_local_state"@, "supplies_purchase_price"@, i) ==>
                is_single(cells[i], row.supplies_purchase_price),
{
    lemma_column(schema, "claim_local_state", "location", cols.location);
    lemma_column(schema, "claim_local_state", "entity_id", cols.entity_id);
    lemma_column(schema, "claim_local_state", "supplies", cols.supplies);
    lemma_column(schema, "claim_local_state", "building_maintenance", cols.building_maintenance);
    lemma_column(schema, "claim_local_state", "num_tiles", cols.num_tiles);
    lemma_column(schema, "claim_local_state", "treasury", cols.treasury);
    lemma_column(schema, "claim_local_state", "supplies_purchase_threshold", cols.supplies_purchase_threshold);
    lemma_column(schema, "claim_local_state", "supplies_purchase_price", cols.supplies_purchase_price);
}

/// A row of `claim_member_state` has in each field what stands in the column of that name.
pub proof fn law_claim_member_rows_follow_their_columns(
    schema: MirroredSchema,
    cols: ClaimMemberCols,
    cells: Seq<Cell>,
    row: ClaimMemberRow,
)
    requires
        cols.found(schema),
        row.reads(cells, cols),
    ensures
        forall|i: int| #[trigger]
            is_column(schema, "claim_member_state"@, "entity_id"@, i) ==> is_id(cells[i], row.entity_id),
        forall|i: int| #[trigger]
            is_column(schema, "claim_member_state"@, "claim_entity_id"@, i) ==> is_id(cells[i], row.claim_entity_id),
        forall|i: int| #[trigger]
            is_column(schema, "claim_member_state"@, "player_entity_id"@, i) ==> is_id(cells[i], row.player_entity_id),
        forall|i: int| #[trigger]
            is_column(schema, "claim_member_state"@, "user_name"@, i) ==> is_text(cells[i], row.user_name@),
        forall|i: int| #[trigger]
            is_column(schema, "claim_member_state"@, "inventory_permission"@, i) ==> cells[i]
                == Cell::Bool(Some(row.inventory_permission)),
        forall|i: int| #[trigger]
            is_column(schema, "claim_member_state"@, "build_permission"@, i) ==> cells[i]
                == Cell::Bool(Some(row.build_permission)),
        forall|i: int| #[trigger]
            is_column(schema, "claim_member_state"@, "officer_permission"@, i) ==> cells[i]
                == Cell::Bool(Some(row.officer_permission)),
        forall|i: int| #[trigger]
            is_column(schema, "claim_member_state"@, "co_owner_permission"@, i) ==> cells[i]
                == Cell::Bool(Some(row.co_owner_permission)),
{
    lemma_column(schema, "claim_member_state", "entity_id", cols.entity_id);
    lemma_column(schema, "claim_member_state", "claim_entity_id", cols.claim_entity_id);
    lemma_column(schema, "claim_member_state", "player_entity_id", cols.player_entity_id);
    lemma_column(schema, "claim_member_state", "user_name", cols.user_name);
    lemma_column(schema, "claim_member_state", "inventory_permission", cols.inventory_permission);
    lemma_column(schema, "claim_member_state", "build_permission", cols.build_permission);
    lemma_column(schema, "claim_member_state", "officer_permission", cols.officer_permission);
    lemma_column(schema, "claim_member_state", "co_owner_permission", cols.co_owner_permission);
}

/// A row of `claim_tech_state` has in each field what stands in the column of that name.
pub proof fn law_claim_tech_state_rows_follow_their_columns(
    schema: MirroredSchema,
    cols: ClaimTechStateCols,
    cells: Seq<Cell>,
    row: ClaimTechStateRow,
)
    requires
        cols.found(schema),
        row.reads(cells, cols),
    ensures
        forall|i: int| #[trigger]
            is_column(schema, "claim_tech_state"@, "entity_id"@, i) ==> is_id(cells[i], row.entity_id),
        forall|i: int| #[trigger]
            is_column(schema, "claim_tech_state"@, "learned"@, i) ==> i32s_in(cells[i], "claim_tech_state.learned")
                == Ok::<Seq<i32>, DecodeError>(row.learned@),
        forall|i: int| #[trigger]
            is_column(schema, "claim_tech_state"@, "researching"@, i) ==> cells[i]
                == Cell::Integer(Some(row.researching)),
        forall|i: int| #[trigger]
            is_column(schema, "claim_tech_state"@, "start_timestamp"@, i) ==>
                timestamp_in(cells[i], "claim_tech_state.start_timestamp")
                == Ok::<i64, DecodeError>(row.start_timestamp_micros),
{
    lemma_column(schema, "claim_tech_state", "entity_id", cols.entity_id);
    lemma_column(schema, "claim_tech_state", "learned", cols.learned);
    lemma_column(schema, "claim_tech_state", "researching", cols.researching);
    lemma_column(schema, "claim_tech_state", "start_timestamp", cols.start_timestamp);
}

/// A row of `claim_tech_desc` has in each field what stands in the column of that name.
pub proof fn law_claim_tech_desc_rows_follow_their_columns(
    schema: MirroredSchema,
    cols: ClaimTechDescCols,
    cells: Seq<Cell>,
    row: ClaimTechDescRow,
)
    requires
        cols.found(schema),
        row.reads(cells, cols),
    ensures
        forall|i: int| #[trigger]
            is_column(schema, "claim_tech_desc"@, "id"@, i) ==> cells[i] == Cell::Integer(Some(row.id)),
        forall|i: int| #[trigger]
            is_column(schema, "claim_tech_desc"@, "name"@, i) ==> is_text(cells[i], row.name@),
        forall|i: int| #[trigger]
            is_column(schema, "claim_tech_desc"@, "description"@, i) ==> is_text(cells[i], row.description@),
        forall|i: int| #[trigger]
            is_column(schema, "claim_tech_desc"@, "tier"@, i) ==> cells[i] == Cell::Integer(Some(row.tier)),
        forall|i: int| #[trigger]
            is_column(schema, "claim_tech_desc"@, "tech_type"@, i) ==>
                snake_variant_in(cells[i], "claim_tech_desc.tech_type")
                == Ok::<Seq<char>, DecodeError>(row.tech_type@),
        forall|i: int| #[trigger]
            is_column(schema, "claim_tech_desc"@, "supplies_cost"@, i) ==> cells[i]
                == Cell::Integer(Some(row.supplies_cost)),
        forall|i: int| #[trigger]
            is_column(schema, "claim_tech_desc"@, "research_time"@, i) ==> cells[i]
                == Cell::Integer(Some(row.research_time)),
        forall|i: int| #[trigger]
            is_column(schema, "claim_tech_desc"@, "requirements"@, i) ==>
                i32s_in(cells[i], "claim_tech_desc.requirements")
                == Ok::<Seq<i32>, DecodeError>(row.requirements@),
        forall|i: int| #[trigger]
            is_column(schema, "claim_tech_desc"@, "members"@, i) ==> cells[i] == Cell::Integer(Some(row.members)),
        forall|i: int| #[trigger]
            is_column(schema, "claim_tech_desc"@, "area"@, i) ==> cells[i] == Cell::Integer(Some(row.area)),
        forall|i: int| #[trigger]
            is_column(schema, "claim_tech_desc"@, "unlocks_techs"@, i) ==>
                i32s_in(cells[i], "claim_tech_desc.unlocks_techs")
                == Ok::<Seq<i32>, DecodeError>(row.unlocks_techs@),
{
    lemma_column(schema, "claim_tech_desc", "id", cols.id);
    lemma_column(schema, "claim_tech_desc", "name", cols.name);
    lemma_column(schema, "claim_tech_desc", "description", cols.description);
    lemma_column(schema, "claim_tech_desc", "tier", cols.tier);
    lemma_column(schema, "claim_tech_desc", "tech_type", cols.tech_type);
    lemma_column(schema, "claim_tech_desc", "supplies_cost", cols.supplies_cost);
    lemma_column(schema, "claim_tech_desc", "research_time", cols.research_time);
    lemma_column(schema, "claim_tech_desc", "requirements", cols.requirements);
    lemma_column(schema, "claim_tech_desc", "members", cols.members);
    lemma_column(schema, "claim_tech_desc", "area", cols.area);
    lemma_column(schema, "claim_tech_desc", "unlocks_techs", cols.unlocks_techs);
}

/// A row of `claim_tile_cost` has in each field what stands in the column of that name.
pub proof fn law_claim_tile_cost_rows_follow_their_columns(
    schema: MirroredSchema,
    cols: ClaimTileCostCols,
    cells: Seq<Cell>,
    row: ClaimTileCostRow,
)
    requires
        cols.found(schema),
        row.reads(cells, cols),
    ensures
        forall|i: int| #[trigger]
            is_column(schema, "claim_tile_cost"@, "tile_count"@, i) ==> cells[i]
                == Cell::Integer(Some(row.tile_count)),
        forall|i: int| #[trigger]
            is_column(schema, "claim_tile_cost"@, "cost_per_tile"@, i) ==> is_single(cells[i], row.cost_per_tile),
{
    lemma_column(schema, "claim_tile_cost", "tile_count", cols.tile_count);
    lemma_column(schema, "claim_tile_cost", "cost_per_tile", cols.cost_per_tile);
}

/// A row of `experience_state` has in each field what stands in the column of that name.
pub proof fn law_experience_rows_follow_their_columns(
    schema: MirroredSchema,
    cols: ExperienceCols,
    cells: Seq<Cell>,
    row: ExperienceRow,
)
    requires
        cols.found(schema),
        row.reads(cells, cols),
    ensures
        forall|i: int| #[trigger]
            is_column(schema, "experience_state"@, "entity_id"@, i) ==> is_id(cells[i], row.entity_id),
        forall|i: int| #[trigger]
            is_column(schema, "experience_state"@, "experience_stacks"@, i) ==> experiences_in(cells[i])
                == Ok::<Seq<(i32, i32)>, DecodeError>(row.stacks@),
{
    lemma_column(schema, "experience_state", "entity_id", cols.entity_id);
    lemma_column(schema, "experience_state", "experience_stacks", cols.experience_stacks);
}

/// A row of `skill_desc` has in each field what stands in the column of that name.
pub proof fn law_skill_desc_rows_follow_their_columns(
    schema: MirroredSchema,
    cols: SkillDescCols,
    cells: Seq<Cell>,
    row: SkillDescRow,
)
    requires
        cols.found(schema),
        row.reads(cells, cols),
    ensures
        forall|i: int| #[trigger]
            is_column(schema, "skill_desc"@, "id"@, i) ==> cells[i] == Cell::Integer(Some(row.id)),
        forall|i: int| #[trigger]
            is_column(schema, "skill_desc"@, "name"@, i) ==> is_text(cells[i], row.name@),
        forall|i: int| #[trigger]
            is_column(schema, "skill_desc"@, "title"@, i) ==> is_text(cells[i], row.title@),
        forall|i: int| #[trigger]
            is_column(schema, "skill_desc"@, "max_level"@, i) ==> cells[i] == Cell::Integer(Some(row.max_level)),
{
    lemma_column(schema, "skill_desc", "id", cols.id);
    lemma_column(schema, "skill_desc", "name", cols.name);
    lemma_column(schema, "skill_desc", "title", cols.title);
    lemma_column(schema, "skill_desc", "max_level", cols.max_level);
}

/// A row of `progressive_action_state` has in each field what stands in the column of that name.
pub proof fn law_progressive_action_rows_follow_their_columns(
    schema: MirroredSchema,
    cols: ProgressiveActionCols,
    cells: Seq<Cell>,
    row: ProgressiveActionRow,
)
    requires
        cols.found(schema),
        row.reads(cells, cols),
    ensures
        forall|i: int| #[trigger]
            is_column(schema, "progressive_action_state"@, "entity_id"@, i) ==> is_id(cells[i], row.entity_id),
        forall|i: int| #[trigger]
            is_column(schema, "progressive_action_state"@, "building_entity_id"@, i) ==>
                is_id(cells[i], row.building_entity_id),
        forall|i: int| #[trigger]
            is_column(schema, "progressive_action_state"@, "progress"@, i) ==> cells[i]
                == Cell::Integer(Some(row.progress)),
        forall|i: int| #[trigger]
            is_column(schema, "progressive_action_state"@, "recipe_id"@, i) ==> cells[i]
                == Cell::Integer(Some(row.recipe_id)),
        forall|i: int| #[trigger]
            is_column(schema, "progressive_action_state"@, "craft_count"@, i) ==> cells[i]
                == Cell::Integer(Some(row.craft_count)),
        forall|i: int| #[trigger]
            is_column(schema, "progressive_action_state"@, "owner_entity_id"@, i) ==>
                is_id(cells[i], row.owner_entity_id),
{
    lemma_column(schema, "progressive_action_state", "entity_id", cols.entity_id);
    lemma_column(schema, "progressive_action_state", "building_entity_id", cols.building_entity_id);
    lemma_column(schema, "progressive_action_state", "progress", cols.progress);
    lemma_column(schema, "progressive_action_state", "recipe_id", cols.recipe_id);
    lemma_column(schema, "progressive_action_state", "craft_count", cols.craft_count);
    lemma_column(schema, "progressive_action_state", "owner_entity_id", cols.owner_entity_id);
}

/// A row of `public_progressive_action_state` has in each field what stands in the column of that name.
pub proof fn law_public_progressive_action_rows_follow_their_columns(
    schema: MirroredSchema,
    cols: PublicProgressiveActionCols,
    cells: Seq<Cell>,
    row: PublicProgressiveActionRow,
)
    requires
        cols.found(schema),
        row.reads(cells, cols),
    ensures
        forall|i: int| #[trigger]
            is_column(schema, "public_progressive_action_state"@, "entity_id"@, i) ==> is_id(cells[i], row.entity_id),
        forall|i: int| #[trigger]
            is_column(schema, "public_progressive_action_state"@, "building_entity_id"@, i) ==>
                is_id(cells[i], row.building_entity_id),
        forall|i: int| #[trigger]
            is_column(schema, "public_progressive_action_state"@, "owner_entity_id"@, i) ==>
                is_id(cells[i], row.owner_entity_id),
{
    lemma_column(schema, "public_progressive_action_state", "entity_id", cols.entity_id);
    lemma_column(schema, "public_progressive_action_state", "building_entity_id", cols.building_entity_id);
    lemma_column(schema, "public_progressive_action_state", "owner_entity_id", cols.owner_entity_id);
}

/// A row of `passive_craft_state` has in each field what stands in the column of that name.
pub proof fn law_passive_craft_rows_follow_their_columns(
    schema: MirroredSchema,
    cols: PassiveCraftCols,
    cells: Seq<Cell>,
    row: PassiveCraftRow,
)
    requires
        cols.found(schema),
        row.reads(cells, cols),
    ensures
        forall|i: int| #[trigger]
            is_column(schema, "passive_craft_state"@, "entity_id"@, i) ==> is_id(cells[i], row.entity_id),
        forall|i: int| #[trigger]
            is_column(schema, "passive_craft_state"@, "owner_entity_id"@, i) ==> is_id(cells[i], row.owner_entity_id),
        forall|i: int| #[trigger]
            is_column(schema, "passive_craft_state"@, "recipe_id"@, i) ==> cells[i]
                == Cell::Integer(Some(row.recipe_id)),
        forall|i: int| #[trigger]
            is_column(schema, "passive_craft_state"@, "building_entity_id"@, i) ==>
                is_id(cells[i], row.building_entity_id),
        forall|i: int| #[trigger]
            is_column(schema, "passive_craft_state"@, "status"@, i) ==> craft_status_in(cells[i])
                == Ok::<PassiveCraftStatus, DecodeError>(row.status),
{
    lemma_column(schema, "passive_craft_state", "entity_id", cols.entity_id);
    lemma_column(schema, "passive_craft_state", "owner_entity_id", cols.owner_entity_id);
    lemma_column(schema, "passive_craft_state", "recipe_id", cols.recipe_id);
    lemma_column(schema, "passive_craft_state", "building_entity_id", cols.building_entity_id);
    lemma_column(schema, "passive_craft_state", "status", cols.status);
}

/// A row of `crafting_recipe_desc` has in each field what stands in the column of that name.
pub proof fn law_crafting_recipe_desc_rows_follow_their_columns(
    schema: MirroredSchema,
    cols: CraftingRecipeDescCols,
    cells: Seq<Cell>,
    row: CraftingRecipeDescRow,
)
    requires
        cols.found(schema),
        row.reads(cells, cols),
    ensures
        forall|i: int| #[trigger]
            is_column(schema, "crafting_recipe_desc"@, "id"@, i) ==> cells[i] == Cell::Integer(Some(row.id)),
        forall|i: int| #[trigger]
            is_column(schema, "crafting_recipe_desc"@, "actions_required"@, i) ==> cells[i]
                == Cell::Integer(Some(row.actions_required)),
        forall|i: int| #[trigger]
            is_column(schema, "crafting_recipe_desc"@, "crafted_item_stacks"@, i) ==> crafted_in(cells[i])
                == Ok::<Seq<CraftedItemStack>, DecodeError>(row.crafted_item@),
{
    lemma_column(schema, "crafting_recipe_desc", "id", cols.id);
    lemma_column(schema, "crafting_recipe_desc", "actions_required", cols.actions_required);
    lemma_column(schema, "crafting_recipe_desc", "crafted_item_stacks", cols.crafted_item_stacks);
}

/// A row of `terrain_chunk_state` has in each field what stands in the column of that name.
pub proof fn law_terrain_chunk_rows_follow_their_columns(
    schema: MirroredSchema,
    cols: TerrainChunkCols,
    cells: Seq<Cell>,
    row: TerrainChunkRow,
)
    requires
        cols.found(schema),
        row.reads(cells, cols),
    ensures
        forall|i: int| #[trigger]
            is_column(schema, "terrain_chunk_state"@, "chunk_x"@, i) ==> cells[i] == Cell::Integer(Some(row.chunk_x)),
        forall|i: int| #[trigger]
            is_column(schema, "terrain_chunk_state"@, "chunk_z"@, i) ==> cells[i] == Cell::Integer(Some(row.chunk_z)),
        forall|i: int| #[trigger]
            is_column(schema, "terrain_chunk_state"@, "dimension"@, i) ==> u32_in(cells[i], "dimension")
                == Ok::<u32, DecodeError>(row.dimension),
        forall|i: int| #[trigger]
            is_column(schema, "terrain_chunk_state"@, "elevations"@, i) ==> i16s_in(cells[i], "elevations")
                == Ok::<Seq<i16>, DecodeError>(row.elevations@),
        forall|i: int| #[trigger]
            is_column(schema, "terrain_chunk_state"@, "original_elevations"@, i) ==>
                i16s_in(cells[i], "original_elevations")
                == Ok::<Seq<i16>, DecodeError>(row.original_elevations@),
        forall|i: int| #[trigger]
            is_column(schema, "terrain_chunk_state"@, "water_levels"@, i) ==> i16s_in(cells[i], "water_levels")
                == Ok::<Seq<i16>, DecodeError>(row.water_levels@),
        forall|i: int| #[trigger]
            is_column(schema, "terrain_chunk_state"@, "water_body_types"@, i) ==> u8s_in(cells[i], "water_body_types")
                == Ok::<Seq<u8>, DecodeError>(row.water_body_types@),
{
    lemma_column(schema, "terrain_chunk_state", "chunk_x", cols.chunk_x);
    lemma_column(schema, "terrain_chunk_state", "chunk_z", cols.chunk_z);
    lemma_column(schema, "terrain_chunk_state", "dimension", cols.dimension);
    lemma_column(schema, "terrain_chunk_state", "elevations", cols.elevations);
    lemma_column(schema, "terrain_chunk_state", "original_elevations", cols.original_elevations);
    lemma_column(schema, "terrain_chunk_state", "water_levels", cols.water_levels);
    lemma_column(schema, "terrain_chunk_state", "water_body_types", cols.water_body_types);
}

/// A row of `paved_tile_state` has in each field what stands in the column of that name.
pub proof fn law_paved_tile_rows_follow_their_columns(
    schema: MirroredSchema,
    cols: PavedTileCols,
    cells: Seq<Cell>,
    row: PavedTileRow,
)
    requires
        cols.found(schema),
        row.reads(cells, cols),
    ensures
        forall|i: int| #[trigger]
            is_column(schema, "paved_tile_state"@, "entity_id"@, i) ==> is_id(cells[i], row.entity_id),
        forall|i: int| #[trigger]
            is_column(schema, "paved_tile_state"@, "tile_type_id"@, i) ==> cells[i]
                == Cell::Integer(Some(row.tile_type_id)),
{
    lemma_column(schema, "paved_tile_state", "entity_id", cols.entity_id);
    lemma_column(schema, "paved_tile_state", "tile_type_id", cols.tile_type_id);
}

/// A row of `claim_tile_state` has in each field what stands in the column of that name.
pub proof fn law_claim_tile_rows_follow_their_columns(
    schema: MirroredSchema,
    cols: ClaimTileCols,
    cells: Seq<Cell>,
    row: ClaimTileRow,
)
    requires
        cols.found(schema),
        row.reads(cells, cols),
    ensures
        forall|i: int| #[trigger]
            is_column(schema, "claim_tile_state"@, "entity_id"@, i) ==> is_id(cells[i], row.entity_id),
        forall|i: int| #[trigger]
            is_column(schema, "claim_tile_state"@, "claim_id"@, i) ==> is_id(cells[i], row.claim_id),
{
    lemma_column(schema, "claim_tile_state", "entity_id", cols.entity_id);
    lemma_column(schema, "claim_tile_state", "claim_id", cols.claim_id);
}

/// A row of `claim_state` has in each field what stands in the column of that name.
pub proof fn law_claim_state_roads_rows_follow_their_columns(
    schema: MirroredSchema,
    cols: ClaimStateRoadsCols,
    cells: Seq<Cell>,
    row: ClaimStateRoadsRow,
)
    requires
        cols.found(schema),
        row.reads(cells, cols),
    ensures
        forall|i: int| #[trigger]
            is_column(schema, "claim_state"@, "entity_id"@, i) ==> is_id(cells[i], row.entity_id),
        forall|i: int| #[trigger]
            is_column(schema, "claim_state"@, "neutral"@, i) ==> cells[i] == Cell::Bool(Some(row.neutral)),
{
    lemma_column(schema, "claim_state", "entity_id", cols.entity_id);
    lemma_column(schema, "claim_state", "neutral", cols.neutral);
}

/// A row of `location_state` has in each field what stands in the column of that name.
pub proof fn law_location_roads_rows_follow_their_columns(
    schema: MirroredSchema,
    cols: LocationRoadsCols,
    cells: Seq<Cell>,
    row: LocationRoadsRow,
)
    requires
        cols.found(schema),
        row.reads(cells, cols),
    ensures
        forall|i: int| #[trigger]
            is_column(schema, "location_state"@, "entity_id"@, i) ==> is_id(cells[i], row.entity_id),
        forall|i: int| #[trigger]
            is_column(schema, "location_state"@, "x"@, i) ==> cells[i] == Cell::Integer(Some(row.x)),
        forall|i: int| #[trigger]
            is_column(schema, "location_state"@, "z"@, i) ==> cells[i] == Cell::Integer(Some(row.z)),
        forall|i: int| #[trigger]
            is_column(schema, "location_state"@, "dimension"@, i) ==> u32_in(cells[i], "dimension")
                == Ok::<u32, DecodeError>(row.dimension),
{
    lemma_column(schema, "location_state", "entity_id", cols.entity_id);
    lemma_column(schema, "location_state", "x", cols.x);
    lemma_column(schema, "location_state", "z", cols.z);
    lemma_column(schema, "location_state", "dimension", cols.dimension);
}

/// A row of `paving_tile_desc` has in each field what stands in the column of that name.
pub proof fn law_paving_desc_rows_follow_their_columns(
    schema: MirroredSchema,
    cols: PavingDescCols,
    cells: Seq<Cell>,
    row: PavingDescRow,
)
    requires
        cols.found(schema),
        row.reads(cells, cols),
    ensures
        forall|i: int| #[trigger]
            is_column(schema, "paving_tile_desc"@, "id"@, i) ==> cells[i] == Cell::Integer(Some(row.id)),
        forall|i: int| #[trigger]
            is_column(schema, "paving_tile_desc"@, "name"@, i) ==> is_text(cells[i], row.name@),
        forall|i: int| #[trigger]
            is_column(schema, "paving_tile_desc"@, "paving_duration"@, i) ==> is_single(cells[i], row.paving_duration),
        forall|i: int| #[trigger]
            is_column(schema, "paving_tile_desc"@, "tier"@, i) ==> cells[i] == Cell::Integer(Some(row.tier)),
        forall|i: int| #[trigger]
            is_column(schema, "paving_tile_desc"@, "input_cargo_id"@, i) ==> cells[i]
                == Cell::Integer(Some(row.input_cargo_id)),
        forall|i: int| #[trigger]
            is_column(schema, "paving_tile_desc"@, "consumed_item_stacks"@, i) ==>
                consumed_in(cells[i], "consumed_item_stacks")
                == Ok::<Seq<(i32, u32, bool)>, DecodeError>(row.consumed@),
{
    lemma_column(schema, "paving_tile_desc", "id", cols.id);
    lemma_column(schema, "paving_tile_desc", "name", cols.name);
    lemma_column(schema, "paving_tile_desc", "paving_duration", cols.paving_duration);
    lemma_column(schema, "paving_tile_desc", "tier", cols.tier);
    lemma_column(schema, "paving_tile_desc", "input_cargo_id", cols.input_cargo_id);
    lemma_column(schema, "paving_tile_desc", "consumed_item_stacks", cols.consumed_item_stacks);
}

/// A row of `terraform_recipe_desc` has in each field what stands in the column of that name.
pub proof fn law_terraform_recipe_rows_follow_their_columns(
    schema: MirroredSchema,
    cols: TerraformRecipeCols,
    cells: Seq<Cell>,
    row: TerraformRecipeRow,
)
    requires
        cols.found(schema),
        row.reads(cells, cols),
    ensures
        forall|i: int| #[trigger]
            is_column(schema, "terraform_recipe_desc"@, "difference"@, i) ==> i16_in(cells[i], "difference")
                == Ok::<i16, DecodeError>(row.difference),
        forall|i: int| #[trigger]
            is_column(schema, "terraform_recipe_desc"@, "actions_count"@, i) ==> cells[i]
                == Cell::Integer(Some(row.actions_count)),
        forall|i: int| #[trigger]
            is_column(schema, "terraform_recipe_desc"@, "stamina_per_action"@, i) ==>
                is_single(cells[i], row.stamina_per_action),
        forall|i: int| #[trigger]
            is_column(schema, "terraform_recipe_desc"@, "time_per_action"@, i) ==>
                is_single(cells[i], row.time_per_action),
{
    lemma_column(schema, "terraform_recipe_desc", "difference", cols.difference);
    lemma_column(schema, "terraform_recipe_desc", "actions_count", cols.actions_count);
    lemma_column(schema, "terraform_recipe_desc", "stamina_per_action", cols.stamina_per_action);
    lemma_column(schema, "terraform_recipe_desc", "time_per_action", cols.time_per_action);
}

/// A row of `region_name_state` has in each field what stands in the column of that name.
pub proof fn law_region_name_rows_follow_their_columns(
    schema: MirroredSchema,
    cols: RegionNameCols,
    cells: Seq<Cell>,
    row: RegionNameRow,
)
    requires
        cols.found(schema),
        row.reads(cells, cols),
    ensures
        forall|i: int| #[trigger]
            is_column(schema, "region_name_state"@, "id"@, i) ==> u16_in(cells[i], "id")
                == Ok::<u16, DecodeError>(row.id),
        forall|i: int| #[trigger]
            is_column(schema, "region_name_state"@, "player_facing_name"@, i) ==> is_text(cells[i], row.name@),
{
    lemma_column(schema, "region_name_state", "id", cols.id);
    lemma_column(schema, "region_name_state", "player_facing_name", cols.player_facing_name);
}

/// A row of `world_region_state` has in each field what stands in the column of that name.
pub proof fn law_world_region_rows_follow_their_columns(
    schema: MirroredSchema,
    cols: WorldRegionCols,
    cells: Seq<Cell>,
    row: WorldRegionRow,
)
    requires
        cols.found(schema),
        row.reads(cells, cols),
    ensures
        forall|i: int| #[trigger]
            is_column(schema, "world_region_state"@, "region_width_chunks"@, i) ==>
                u16_in(cells[i], "region_width_chunks")
                == Ok::<u16, DecodeError>(row.region_width_chunks),
        forall|i: int| #[trigger]
            is_column(schema, "world_region_state"@, "region_height_chunks"@, i) ==>
                u16_in(cells[i], "region_height_chunks")
                == Ok::<u16, DecodeError>(row.region_height_chunks),
        forall|i: int| #[trigger]
            is_column(schema, "world_region_state"@, "region_count_sqrt"@, i) ==> u8_in(cells[i], "region_count_sqrt")
                == Ok::<u8, DecodeError>(row.region_count_sqrt),
{
    lemma_column(schema, "world_region_state", "region_width_chunks", cols.region_width_chunks);
    lemma_column(schema, "world_region_state", "region_height_chunks", cols.region_height_chunks);
    lemma_column(schema, "world_region_state", "region_count_sqrt", cols.region_count_sqrt);
}

} // verus!
