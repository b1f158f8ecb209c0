//! Rows of the mirrored tables.

use vstd::prelude::*;

use crate::cell::{
    action_in, bool_in, buff_models, buffs_in, cell_bool, cell_f32, cell_f32_array, cell_i32, cell_identity,
    cell_opt_i32_sum, cell_opt_u64_sum, cell_string, cell_u16, cell_u32, cell_u64, cell_u8, craft_status_in,
    crafted_in, decode_action_log_data, decode_buff_entries, decode_crafted_item_stacks, decode_experience_stacks,
    decode_i32_array, decode_optional_location, decode_passive_craft_status, decode_pockets,
    decode_schedule_at_timestamp, decode_timestamp_micros, decode_u64_array, deployable_kind_from_cell, experiences_in,
    functions_is_storage, i32_in, i32s_in, identity_in, kind_in, location_in, opt_i32_in, opt_u64_in, pockets_in,
    schedule_in, single_in, singles_in, snake_variant_in, storage_in, sum_variant_pascal, sum_variant_snake, text_in,
    timestamp_in, u16_in, u32_in, u64_in, u64s_in, u8_in, variant_in, BuffEntry, BuffModel, Cell, CraftedItemStack,
    DeployableKind, PassiveCraftStatus, Pocket, Single,
};
use crate::decode::columns::{
    ActiveBuffCols, BuildingCols, BuildingDescCols, BuildingNicknameCols, CharacterStatDescCols, CharacterStatsCols,
    ClaimCols, ClaimLocalCols, ClaimMemberCols, ClaimTechDescCols, ClaimTechStateCols, ClaimTileCostCols,
    CraftingRecipeDescCols, DeployableCols, DeployableDescCols, DimensionNetworkCols, ExperienceCols,
    ExtractionRecipeCols, GrowthCols, InventoryCols, LocationCols, MobileEntityCols, PassiveCraftCols,
    PlayerActionCols, PlayerHousingCols, PlayerHousingDescCols, PlayerStateCols, PlayerUsernameCols,
    ProgressiveActionCols, PublicProgressiveActionCols, RentCols, ResourceCols, ResourceDescCols,
    ResourceGrowthTimerCols, ResourceHealthCols, SkillDescCols, StaminaCols, StorageLogCols,
};
use crate::hex_text::{encode, hex_of};
use crate::schema::{either, failed, DecodeError};

verus! {

/// A row of `claim_state`.
#[derive(Debug, Clone, PartialEq, Eq)]
pub struct ClaimRow {
    pub entity_id: u64,
    pub owner_player_entity_id: u64,
    pub owner_building_entity_id: u64,
    pub name: String,
    pub neutral: bool,
}

impl ClaimRow {
    /// What the cells of a row say.
    pub open spec fn reads(self, cells: Seq<Cell>, cols: ClaimCols) -> bool {
        &&& u64_in(cells[cols.entity_id as int], "claim.entity_id") == Ok::<u64, DecodeError>(self.entity_id)
        &&& u64_in(cells[cols.owner_player_entity_id as int], "claim.owner_player_entity_id")
            == Ok::<u64, DecodeError>(self.owner_player_entity_id)
        &&& u64_in(cells[cols.owner_building_entity_id as int], "claim.owner_building_entity_id")
            == Ok::<u64, DecodeError>(self.owner_building_entity_id)
        &&& text_in(cells[cols.name as int], "claim.name") == Ok::<Seq<char>, DecodeError>(self.name@)
        &&& bool_in(cells[cols.neutral as int], "claim.neutral") == Ok::<bool, DecodeError>(self.neutral)
    }

    /// The first cell that cannot be read, as an error.
    pub open spec fn error(cells: Seq<Cell>, cols: ClaimCols) -> Option<DecodeError> {
        either(
            failed(u64_in(cells[cols.entity_id as int], "claim.entity_id")),
            either(
                failed(u64_in(cells[cols.owner_player_entity_id as int], "claim.owner_player_entity_id")),
                either(
                    failed(u64_in(cells[cols.owner_building_entity_id as int], "claim.owner_building_entity_id")),
                    either(
                        failed(text_in(cells[cols.name as int], "claim.name")),
                        failed(bool_in(cells[cols.neutral as int], "claim.neutral")),
                    ),
                ),
            ),
        )
    }
}

/// Reads a row of `claim_state`.
pub fn decode_claim_with_fields(cells: &[Cell], cols: ClaimCols) -> (r: Result<ClaimRow, DecodeError>)
    requires
        cols.fit(cells@.len()),
    ensures
        match r {
            Ok(row) => row.reads(cells@, cols) && ClaimRow::error(cells@, cols) is None,
            Err(e) => ClaimRow::error(cells@, cols) == Some(e),
        },
{
    let entity_id: u64 = cell_u64(&cells[cols.entity_id], "claim.entity_id")?;
    let owner_player_entity_id: u64 = cell_u64(&cells[cols.owner_player_entity_id], "claim.owner_player_entity_id")?;
    let owner_building_entity_id: u64 =
        cell_u64(&cells[cols.owner_building_entity_id], "claim.owner_building_entity_id")?;
    let name: String = cell_string(&cells[cols.name], "claim.name")?;
    let neutral: bool = cell_bool(&cells[cols.neutral], "claim.neutral")?;
    Ok(
        ClaimRow {
            entity_id,
            owner_player_entity_id,
            owner_building_entity_id,
            name,
            neutral,
        },
    )
}

/// A row of `building_state`.
#[derive(Debug, Clone, PartialEq, Eq)]
pub struct BuildingRow {
    pub entity_id: u64,
    pub claim_entity_id: u64,
    pub building_description_id: i32,
}

impl BuildingRow {
    /// What the cells of a row say.
    pub open spec fn reads(self, cells: Seq<Cell>, cols: BuildingCols) -> bool {
        &&& u64_in(cells[cols.entity_id as int], "building.entity_id") == Ok::<u64, DecodeError>(self.entity_id)
        &&& u64_in(cells[cols.claim_entity_id as int], "building.claim_entity_id")
            == Ok::<u64, DecodeError>(self.claim_entity_id)
        &&& i32_in(cells[cols.building_description_id as int], "building.building_description_id")
            == Ok::<i32, DecodeError>(self.building_description_id)
    }

    /// The first cell that cannot be read, as an error.
    pub open spec fn error(cells: Seq<Cell>, cols: BuildingCols) -> Option<DecodeError> {
        either(
            failed(u64_in(cells[cols.entity_id as int], "building.entity_id")),
            either(
                failed(u64_in(cells[cols.claim_entity_id as int], "building.claim_entity_id")),
                failed(i32_in(cells[cols.building_description_id as int], "building.building_description_id")),
            ),
        )
    }
}

/// Reads a row of `building_state`.
pub fn decode_building_with_fields(cells: &[Cell], cols: BuildingCols) -> (r: Result<BuildingRow, DecodeError>)
    requires
        cols.fit(cells@.len()),
    ensures
        match r {
            Ok(row) => row.reads(cells@, cols) && BuildingRow::error(cells@, cols) is None,
            Err(e) => BuildingRow::error(cells@, cols) == Some(e),
        },
{
    let entity_id: u64 = cell_u64(&cells[cols.entity_id], "building.entity_id")?;
    let claim_entity_id: u64 = cell_u64(&cells[cols.claim_entity_id], "building.claim_entity_id")?;
    let building_description_id: i32 =
        cell_i32(&cells[cols.building_description_id], "building.building_description_id")?;
    Ok(
        BuildingRow {
            entity_id,
            claim_entity_id,
            building_description_id,
        },
    )
}

/// A row of `building_desc`.
#[derive(Debug, Clone, PartialEq, Eq)]
pub struct BuildingDescRow {
    pub id: i32,
    pub name: String,
    /// True when any function entry has `storage_slots > 0` or
    /// `cargo_slots > 0`: the signal for a storage-capable
    /// building type (chests, banks, cargo stockpiles, etc.).
    pub is_storage: bool,
}

impl BuildingDescRow {
    /// What the cells of a row say.
    pub open spec fn reads(self, cells: Seq<Cell>, cols: BuildingDescCols) -> bool {
        &&& i32_in(cells[cols.id as int], "building_desc.id") == Ok::<i32, DecodeError>(self.id)
        &&& text_in(cells[cols.name as int], "building_desc.name") == Ok::<Seq<char>, DecodeError>(self.name@)
        &&& storage_in(cells[cols.functions as int]) == Ok::<bool, DecodeError>(self.is_storage)
    }

    /// The first cell that cannot be read, as an error.
    pub open spec fn error(cells: Seq<Cell>, cols: BuildingDescCols) -> Option<DecodeError> {
        either(
            failed(i32_in(cells[cols.id as int], "building_desc.id")),
            either(
                failed(text_in(cells[cols.name as int], "building_desc.name")),
                failed(storage_in(cells[cols.functions as int])),
            ),
        )
    }
}

/// Reads a row of `building_desc`.
pub fn decode_building_desc_with_fields(cells: &[Cell], cols: BuildingDescCols) -> (r: Result<
    BuildingDescRow,
    DecodeError,
>)
    requires
        cols.fit(cells@.len()),
    ensures
        match r {
            Ok(row) => row.reads(cells@, cols) && BuildingDescRow::error(cells@, cols) is None,
            Err(e) => BuildingDescRow::error(cells@, cols) == Some(e),
        },
{
    let id: i32 = cell_i32(&cells[cols.id], "building_desc.id")?;
    let name: String = cell_string(&cells[cols.name], "building_desc.name")?;
    let is_storage: bool = functions_is_storage(&cells[cols.functions])?;
    Ok(
        BuildingDescRow {
            id,
            name,
            is_storage,
        },
    )
}

/// A row of `building_nickname_state`.
#[derive(Debug, Clone, PartialEq, Eq)]
pub struct BuildingNicknameRow {
    pub entity_id: u64,
    pub nickname: String,
}

impl BuildingNicknameRow {
    /// What the cells of a row say.
    pub open spec fn reads(self, cells: Seq<Cell>, cols: BuildingNicknameCols) -> bool {
        &&& u64_in(cells[cols.entity_id as int], "building_nickname.entity_id")
            == Ok::<u64, DecodeError>(self.entity_id)
        &&& text_in(cells[cols.nickname as int], "building_nickname.nickname")
            == Ok::<Seq<char>, DecodeError>(self.nickname@)
    }

    /// The first cell that cannot be read, as an error.
    pub open spec fn error(cells: Seq<Cell>, cols: BuildingNicknameCols) -> Option<DecodeError> {
        either(
            failed(u64_in(cells[cols.entity_id as int], "building_nickname.entity_id")),
            failed(text_in(cells[cols.nickname as int], "building_nickname.nickname")),
        )
    }
}

/// Reads a row of `building_nickname_state`.
pub fn decode_building_nickname_with_fields(cells: &[Cell], cols: BuildingNicknameCols) -> (r: Result<
    BuildingNicknameRow,
    DecodeError,
>)
    requires
        cols.fit(cells@.len()),
    ensures
        match r {
            Ok(row) => row.reads(cells@, cols) && BuildingNicknameRow::error(cells@, cols) is None,
            Err(e) => BuildingNicknameRow::error(cells@, cols) == Some(e),
        },
{
    let entity_id: u64 = cell_u64(&cells[cols.entity_id], "building_nickname.entity_id")?;
    let nickname: String = cell_string(&cells[cols.nickname], "building_nickname.nickname")?;
    Ok(
        BuildingNicknameRow {
            entity_id,
            nickname,
        },
    )
}

/// A row of `inventory_state`.
#[derive(Debug, Clone, PartialEq, Eq)]
pub struct InventoryRow {
    pub entity_id: u64,
    pub pockets: Vec<Pocket>,
    pub inventory_index: i32,
    pub cargo_index: i32,
    pub owner_entity_id: u64,
    pub player_owner_entity_id: u64,
}

impl InventoryRow {
    /// What the cells of a row say.
    pub open spec fn reads(self, cells: Seq<Cell>, cols: InventoryCols) -> bool {
        &&& u64_in(cells[cols.entity_id as int], "inventory.entity_id") == Ok::<u64, DecodeError>(self.entity_id)
        &&& pockets_in(cells[cols.pockets as int]) == Ok::<Seq<Pocket>, DecodeError>(self.pockets@)
        &&& i32_in(cells[cols.inventory_index as int], "inventory.inventory_index")
            == Ok::<i32, DecodeError>(self.inventory_index)
        &&& i32_in(cells[cols.cargo_index as int], "inventory.cargo_index") == Ok::<i32, DecodeError>(self.cargo_index)
        &&& u64_in(cells[cols.owner_entity_id as int], "inventory.owner_entity_id")
            == Ok::<u64, DecodeError>(self.owner_entity_id)
        &&& u64_in(cells[cols.player_owner_entity_id as int], "inventory.player_owner_entity_id")
            == Ok::<u64, DecodeError>(self.player_owner_entity_id)
    }

    /// The first cell that cannot be read, as an error.
    pub open spec fn error(cells: Seq<Cell>, cols: InventoryCols) -> Option<DecodeError> {
        either(
            failed(u64_in(cells[cols.entity_id as int], "inventory.entity_id")),
            either(
                failed(pockets_in(cells[cols.pockets as int])),
                either(
                    failed(i32_in(cells[cols.inventory_index as int], "inventory.inventory_index")),
                    either(
                        failed(i32_in(cells[cols.cargo_index as int], "inventory.cargo_index")),
                        either(
                            failed(u64_in(cells[cols.owner_entity_id as int], "inventory.owner_entity_id")),
                            failed(u64_in(cells[cols.player_owner_entity_id as int], "inventory.player_owner_entity_id")),
                        ),
                    ),
                ),
            ),
        )
    }
}

/// Reads a row of `inventory_state`.
pub fn decode_inventory_with_fields(cells: &[Cell], cols: InventoryCols) -> (r: Result<InventoryRow, DecodeError>)
    requires
        cols.fit(cells@.len()),
    ensures
        match r {
            Ok(row) => row.reads(cells@, cols) && InventoryRow::error(cells@, cols) is None,
            Err(e) => InventoryRow::error(cells@, cols) == Some(e),
        },
{
    let entity_id: u64 = cell_u64(&cells[cols.entity_id], "inventory.entity_id")?;
    let pockets: Vec<Pocket> = decode_pockets(&cells[cols.pockets])?;
    let inventory_index: i32 = cell_i32(&cells[cols.inventory_index], "inventory.inventory_index")?;
    let cargo_index: i32 = cell_i32(&cells[cols.cargo_index], "inventory.cargo_index")?;
    let owner_entity_id: u64 = cell_u64(&cells[cols.owner_entity_id], "inventory.owner_entity_id")?;
    let player_owner_entity_id: u64 =
        cell_u64(&cells[cols.player_owner_entity_id], "inventory.player_owner_entity_id")?;
    Ok(
        InventoryRow {
            entity_id,
            pockets,
            inventory_index,
            cargo_index,
            owner_entity_id,
            player_owner_entity_id,
        },
    )
}

/// A row of `location_state`.
#[derive(Debug, Clone, PartialEq, Eq)]
pub struct LocationRow {
    pub entity_id: u64,
    pub x: i32,
    pub z: i32,
    pub dimension: u32,
}

impl LocationRow {
    /// What the cells of a row say.
    pub open spec fn reads(self, cells: Seq<Cell>, cols: LocationCols) -> bool {
        &&& u64_in(cells[cols.entity_id as int], "location.entity_id") == Ok::<u64, DecodeError>(self.entity_id)
        &&& i32_in(cells[cols.x as int], "location.x") == Ok::<i32, DecodeError>(self.x)
        &&& i32_in(cells[cols.z as int], "location.z") == Ok::<i32, DecodeError>(self.z)
        &&& u32_in(cells[cols.dimension as int], "location.dimension") == Ok::<u32, DecodeError>(self.dimension)
    }

    /// The first cell that cannot be read, as an error.
    pub open spec fn error(cells: Seq<Cell>, cols: LocationCols) -> Option<DecodeError> {
        either(
            failed(u64_in(cells[cols.entity_id as int], "location.entity_id")),
            either(
                failed(i32_in(cells[cols.x as int], "location.x")),
                either(
                    failed(i32_in(cells[cols.z as int], "location.z")),
                    failed(u32_in(cells[cols.dimension as int], "location.dimension")),
                ),
            ),
        )
    }
}

/// Reads a row of `location_state`.
pub fn decode_location_with_fields(cells: &[Cell], cols: LocationCols) -> (r: Result<LocationRow, DecodeError>)
    requires
        cols.fit(cells@.len()),
    ensures
        match r {
            Ok(row) => row.reads(cells@, cols) && LocationRow::error(cells@, cols) is None,
            Err(e) => LocationRow::error(cells@, cols) == Some(e),
        },
{
    let entity_id: u64 = cell_u64(&cells[cols.entity_id], "location.entity_id")?;
    let x: i32 = cell_i32(&cells[cols.x], "location.x")?;
    let z: i32 = cell_i32(&cells[cols.z], "location.z")?;
    let dimension: u32 = cell_u32(&cells[cols.dimension], "location.dimension")?;
    Ok(
        LocationRow {
            entity_id,
            x,
            z,
            dimension,
        },
    )
}

/// A row of `resource_state`.
#[derive(Debug, Clone, PartialEq, Eq, Default)]
pub struct ResourceRow {
    pub entity_id: u64,
    pub resource_id: i32,
    /// `0..=5`: 60 degree CCW cube steps applied to `resource_desc.footprint`.
    pub direction_index: i32,
}

impl ResourceRow {
    /// What the cells of a row say.
    pub open spec fn reads(self, cells: Seq<Cell>, cols: ResourceCols) -> bool {
        &&& u64_in(cells[cols.entity_id as int], "resource.entity_id") == Ok::<u64, DecodeError>(self.entity_id)
        &&& i32_in(cells[cols.resource_id as int], "resource.resource_id") == Ok::<i32, DecodeError>(self.resource_id)
        &&& i32_in(cells[cols.direction_index as int], "resource.direction_index")
            == Ok::<i32, DecodeError>(self.direction_index)
    }

    /// The first cell that cannot be read, as an error.
    pub open spec fn error(cells: Seq<Cell>, cols: ResourceCols) -> Option<DecodeError> {
        either(
            failed(u64_in(cells[cols.entity_id as int], "resource.entity_id")),
            either(
                failed(i32_in(cells[cols.resource_id as int], "resource.resource_id")),
                failed(i32_in(cells[cols.direction_index as int], "resource.direction_index")),
            ),
        )
    }
}

/// Reads a row of `resource_state`.
pub fn decode_resource_with_fields(cells: &[Cell], cols: ResourceCols) -> (r: Result<ResourceRow, DecodeError>)
    requires
        cols.fit(cells@.len()),
    ensures
        match r {
            Ok(row) => row.reads(cells@, cols) && ResourceRow::error(cells@, cols) is None,
            Err(e) => ResourceRow::error(cells@, cols) == Some(e),
        },
{
    let entity_id: u64 = cell_u64(&cells[cols.entity_id], "resource.entity_id")?;
    let resource_id: i32 = cell_i32(&cells[cols.resource_id], "resource.resource_id")?;
    let direction_index: i32 = cell_i32(&cells[cols.direction_index], "resource.direction_index")?;
    Ok(
        ResourceRow {
            entity_id,
            resource_id,
            direction_index,
        },
    )
}

/// A row of `growth_state`.
#[derive(Debug, Clone, PartialEq, Eq)]
pub struct GrowthRow {
    pub entity_id: u64,
    pub end_timestamp_micros: i64,
    pub growth_recipe_id: i32,
}

impl GrowthRow {
    /// What the cells of a row say.
    pub open spec fn reads(self, cells: Seq<Cell>, cols: GrowthCols) -> bool {
        &&& u64_in(cells[cols.entity_id as int], "growth.entity_id") == Ok::<u64, DecodeError>(self.entity_id)
        &&& timestamp_in(cells[cols.end_timestamp as int], "growth.end_timestamp")
            == Ok::<i64, DecodeError>(self.end_timestamp_micros)
        &&& i32_in(cells[cols.growth_recipe_id as int], "growth.growth_recipe_id")
            == Ok::<i32, DecodeError>(self.growth_recipe_id)
    }

    /// The first cell that cannot be read, as an error.
    pub open spec fn error(cells: Seq<Cell>, cols: GrowthCols) -> Option<DecodeError> {
        either(
            failed(u64_in(cells[cols.entity_id as int], "growth.entity_id")),
            either(
                failed(timestamp_in(cells[cols.end_timestamp as int], "growth.end_timestamp")),
                failed(i32_in(cells[cols.growth_recipe_id as int], "growth.growth_recipe_id")),
            ),
        )
    }
}

/// Reads a row of `growth_state`.
pub fn decode_growth_with_fields(cells: &[Cell], cols: GrowthCols) -> (r: Result<GrowthRow, DecodeError>)
    requires
        cols.fit(cells@.len()),
    ensures
        match r {
            Ok(row) => row.reads(cells@, cols) && GrowthRow::error(cells@, cols) is None,
            Err(e) => GrowthRow::error(cells@, cols) == Some(e),
        },
{
    let entity_id: u64 = cell_u64(&cells[cols.entity_id], "growth.entity_id")?;
    let end_timestamp_micros: i64 = decode_timestamp_micros(&cells[cols.end_timestamp], "growth.end_timestamp")?;
    let growth_recipe_id: i32 = cell_i32(&cells[cols.growth_recipe_id], "growth.growth_recipe_id")?;
    Ok(
        GrowthRow {
            entity_id,
            end_timestamp_micros,
            growth_recipe_id,
        },
    )
}

/// A row of `resource_growth_timer`.
#[derive(Debug, Clone, PartialEq, Eq)]
pub struct ResourceGrowthTimerRow {
    pub entity_id: u64,
    pub scheduled_at_micros: Option<i64>,
    pub growth_recipe_id: i32,
}

impl ResourceGrowthTimerRow {
    /// What the cells of a row say.
    pub open spec fn reads(self, cells: Seq<Cell>, cols: ResourceGrowthTimerCols) -> bool {
        &&& u64_in(cells[cols.entity_id as int], "growth_timer.entity_id") == Ok::<u64, DecodeError>(self.entity_id)
        &&& schedule_in(cells[cols.scheduled_at as int], "growth_timer.scheduled_at")
            == Ok::<Option<i64>, DecodeError>(self.scheduled_at_micros)
        &&& i32_in(cells[cols.growth_recipe_id as int], "growth_timer.growth_recipe_id")
            == Ok::<i32, DecodeError>(self.growth_recipe_id)
    }

    /// The first cell that cannot be read, as an error.
    pub open spec fn error(cells: Seq<Cell>, cols: ResourceGrowthTimerCols) -> Option<DecodeError> {
        either(
            failed(u64_in(cells[cols.entity_id as int], "growth_timer.entity_id")),
            either(
                failed(schedule_in(cells[cols.scheduled_at as int], "growth_timer.scheduled_at")),
                failed(i32_in(cells[cols.growth_recipe_id as int], "growth_timer.growth_recipe_id")),
            ),
        )
    }
}

/// Reads a row of `resource_growth_timer`.
pub fn decode_resource_growth_timer_with_fields(cells: &[Cell], cols: ResourceGrowthTimerCols) -> (r: Result<
    ResourceGrowthTimerRow,
    DecodeError,
>)
    requires
        cols.fit(cells@.len()),
    ensures
        match r {
            Ok(row) => row.reads(cells@, cols) && ResourceGrowthTimerRow::error(cells@, cols) is None,
            Err(e) => ResourceGrowthTimerRow::error(cells@, cols) == Some(e),
        },
{
    let entity_id: u64 = cell_u64(&cells[cols.entity_id], "growth_timer.entity_id")?;
    let scheduled_at_micros: Option<i64> =
        decode_schedule_at_timestamp(&cells[cols.scheduled_at], "growth_timer.scheduled_at")?;
    let growth_recipe_id: i32 = cell_i32(&cells[cols.growth_recipe_id], "growth_timer.growth_recipe_id")?;
    Ok(
        ResourceGrowthTimerRow {
            entity_id,
            scheduled_at_micros,
            growth_recipe_id,
        },
    )
}

/// A row of `storage_log_state`.
#[derive(Debug, Clone, PartialEq, Eq)]
pub struct StorageLogRow {
    pub id: u64,
    pub storage_entity_id: u64,
    pub player_entity_id: u64,
    pub player_username: String,
    /// `ACTION_RESERVED` / `ACTION_WITHDRAW` / `ACTION_DEPOSIT`.
    pub action: u8,
    pub item_id: i32,
    pub item_type: u8,
    pub quantity: i32,
    pub timestamp_micros: i64,
    pub days_since_epoch: i32,
}

impl StorageLogRow {
    /// What the cells of a row say.
    pub open spec fn reads(self, cells: Seq<Cell>, cols: StorageLogCols) -> bool {
        &&& action_in(cells[cols.data as int])
            == Ok::<(u8, i32, u8, i32), DecodeError>((self.action, self.item_id, self.item_type, self.quantity))
        &&& u64_in(cells[cols.id as int], "storage_log.id") == Ok::<u64, DecodeError>(self.id)
        &&& u64_in(cells[cols.object_entity_id as int], "storage_log.object_entity_id")
            == Ok::<u64, DecodeError>(self.storage_entity_id)
        &&& u64_in(cells[cols.subject_entity_id as int], "storage_log.subject_entity_id")
            == Ok::<u64, DecodeError>(self.player_entity_id)
        &&& text_in(cells[cols.subject_name as int], "storage_log.subject_name")
            == Ok::<Seq<char>, DecodeError>(self.player_username@)
        &&& timestamp_in(cells[cols.timestamp as int], "storage_log.timestamp")
            == Ok::<i64, DecodeError>(self.timestamp_micros)
        &&& i32_in(cells[cols.days_since_epoch as int], "storage_log.days_since_epoch")
            == Ok::<i32, DecodeError>(self.days_since_epoch)
    }

    /// The first cell that cannot be read, as an error.
    pub open spec fn error(cells: Seq<Cell>, cols: StorageLogCols) -> Option<DecodeError> {
        either(
            failed(action_in(cells[cols.data as int])),
            either(
                failed(u64_in(cells[cols.id as int], "storage_log.id")),
                either(
                    failed(u64_in(cells[cols.object_entity_id as int], "storage_log.object_entity_id")),
                    either(
                        failed(u64_in(cells[cols.subject_entity_id as int], "storage_log.subject_entity_id")),
                        either(
                            failed(text_in(cells[cols.subject_name as int], "storage_log.subject_name")),
                            either(
                                failed(timestamp_in(cells[cols.timestamp as int], "storage_log.timestamp")),
                                failed(i32_in(cells[cols.days_since_epoch as int], "storage_log.days_since_epoch")),
                            ),
                        ),
                    ),
                ),
            ),
        )
    }
}

/// Reads a row of `storage_log_state`.
pub fn decode_storage_log_with_fields(cells: &[Cell], cols: StorageLogCols) -> (r: Result<StorageLogRow, DecodeError>)
    requires
        cols.fit(cells@.len()),
    ensures
        match r {
            Ok(row) => row.reads(cells@, cols) && StorageLogRow::error(cells@, cols) is None,
            Err(e) => StorageLogRow::error(cells@, cols) == Some(e),
        },
{
    let (action, item_id, item_type, quantity): (u8, i32, u8, i32) = decode_action_log_data(&cells[cols.data])?;
    let id: u64 = cell_u64(&cells[cols.id], "storage_log.id")?;
    let storage_entity_id: u64 = cell_u64(&cells[cols.object_entity_id], "storage_log.object_entity_id")?;
    let player_entity_id: u64 = cell_u64(&cells[cols.subject_entity_id], "storage_log.subject_entity_id")?;
    let player_username: String = cell_string(&cells[cols.subject_name], "storage_log.subject_name")?;
    let timestamp_micros: i64 = decode_timestamp_micros(&cells[cols.timestamp], "storage_log.timestamp")?;
    let days_since_epoch: i32 = cell_i32(&cells[cols.days_since_epoch], "storage_log.days_since_epoch")?;
    Ok(
        StorageLogRow {
            id,
            storage_entity_id,
            player_entity_id,
            player_username,
            action,
            item_id,
            item_type,
            quantity,
            timestamp_micros,
            days_since_epoch,
        },
    )
}

/// A row of `dimension_network_state`.
#[derive(Debug, Clone, PartialEq, Eq)]
pub struct DimensionNetworkRow {
    pub entity_id: u64,
    pub building_id: u64,
    pub claim_entity_id: u64,
    pub rent_entity_id: u64,
    pub entrance_dimension_id: u32,
    pub is_collapsed: bool,
}

impl DimensionNetworkRow {
    /// What the cells of a row say.
    pub open spec fn reads(self, cells: Seq<Cell>, cols: DimensionNetworkCols) -> bool {
        &&& u64_in(cells[cols.entity_id as int], "dimension_network.entity_id")
            == Ok::<u64, DecodeError>(self.entity_id)
        &&& u64_in(cells[cols.building_id as int], "dimension_network.building_id")
            == Ok::<u64, DecodeError>(self.building_id)
        &&& u64_in(cells[cols.claim_entity_id as int], "dimension_network.claim_entity_id")
            == Ok::<u64, DecodeError>(self.claim_entity_id)
        &&& u64_in(cells[cols.rent_entity_id as int], "dimension_network.rent_entity_id")
            == Ok::<u64, DecodeError>(self.rent_entity_id)
        &&& u32_in(cells[cols.entrance_dimension_id as int], "dimension_network.entrance_dimension_id")
            == Ok::<u32, DecodeError>(self.entrance_dimension_id)
        &&& bool_in(cells[cols.is_collapsed as int], "dimension_network.is_collapsed")
            == Ok::<bool, DecodeError>(self.is_collapsed)
    }

    /// The first cell that cannot be read, as an error.
    pub open spec fn error(cells: Seq<Cell>, cols: DimensionNetworkCols) -> Option<DecodeError> {
        either(
            failed(u64_in(cells[cols.entity_id as int], "dimension_network.entity_id")),
            either(
                failed(u64_in(cells[cols.building_id as int], "dimension_network.building_id")),
                either(
                    failed(u64_in(cells[cols.claim_entity_id as int], "dimension_network.claim_entity_id")),
                    either(
                        failed(u64_in(cells[cols.rent_entity_id as int], "dimension_network.rent_entity_id")),
                        either(
                            failed(u32_in(cells[cols.entrance_dimension_id as int], "dimension_network.entrance_dimension_id")),
                            failed(bool_in(cells[cols.is_collapsed as int], "dimension_network.is_collapsed")),
                        ),
                    ),
                ),
            ),
        )
    }
}

/// Reads a row of `dimension_network_state`.
pub fn decode_dimension_network_with_fields(cells: &[Cell], cols: DimensionNetworkCols) -> (r: Result<
    DimensionNetworkRow,
    DecodeError,
>)
    requires
        cols.fit(cells@.len()),
    ensures
        match r {
            Ok(row) => row.reads(cells@, cols) && DimensionNetworkRow::error(cells@, cols) is None,
            Err(e) => DimensionNetworkRow::error(cells@, cols) == Some(e),
        },
{
    let entity_id: u64 = cell_u64(&cells[cols.entity_id], "dimension_network.entity_id")?;
    let building_id: u64 = cell_u64(&cells[cols.building_id], "dimension_network.building_id")?;
    let claim_entity_id: u64 = cell_u64(&cells[cols.claim_entity_id], "dimension_network.claim_entity_id")?;
    let rent_entity_id: u64 = cell_u64(&cells[cols.rent_entity_id], "dimension_network.rent_entity_id")?;
    let entrance_dimension_id: u32 =
        cell_u32(&cells[cols.entrance_dimension_id], "dimension_network.entrance_dimension_id")?;
    let is_collapsed: bool = cell_bool(&cells[cols.is_collapsed], "dimension_network.is_collapsed")?;
    Ok(
        DimensionNetworkRow {
            entity_id,
            building_id,
            claim_entity_id,
            rent_entity_id,
            entrance_dimension_id,
            is_collapsed,
        },
    )
}

/// A row of `player_username_state`.
#[derive(Debug, Clone, PartialEq, Eq)]
pub struct PlayerUsernameRow {
    pub entity_id: u64,
    pub username: String,
}

impl PlayerUsernameRow {
    /// What the cells of a row say.
    pub open spec fn reads(self, cells: Seq<Cell>, cols: PlayerUsernameCols) -> bool {
        &&& u64_in(cells[cols.entity_id as int], "player_username.entity_id") == Ok::<u64, DecodeError>(self.entity_id)
        &&& text_in(cells[cols.username as int], "player_username.username")
            == Ok::<Seq<char>, DecodeError>(self.username@)
    }

    /// The first cell that cannot be read, as an error.
    pub open spec fn error(cells: Seq<Cell>, cols: PlayerUsernameCols) -> Option<DecodeError> {
        either(
            failed(u64_in(cells[cols.entity_id as int], "player_username.entity_id")),
            failed(text_in(cells[cols.username as int], "player_username.username")),
        )
    }
}

/// Reads a row of `player_username_state`.
pub fn decode_player_username_with_fields(cells: &[Cell], cols: PlayerUsernameCols) -> (r: Result<
    PlayerUsernameRow,
    DecodeError,
>)
    requires
        cols.fit(cells@.len()),
    ensures
        match r {
            Ok(row) => row.reads(cells@, cols) && PlayerUsernameRow::error(cells@, cols) is None,
            Err(e) => PlayerUsernameRow::error(cells@, cols) == Some(e),
        },
{
    let entity_id: u64 = cell_u64(&cells[cols.entity_id], "player_username.entity_id")?;
    let username: String = cell_string(&cells[cols.username], "player_username.username")?;
    Ok(
        PlayerUsernameRow {
            entity_id,
            username,
        },
    )
}

/// A row of `player_state`.
#[derive(Debug, Clone, PartialEq, Eq)]
pub struct PlayerStateRow {
    pub entity_id: u64,
    pub sign_in_timestamp: i32,
    pub session_start_timestamp: i32,
    pub signed_in: bool,
}

impl PlayerStateRow {
    /// What the cells of a row say.
    pub open spec fn reads(self, cells: Seq<Cell>, cols: PlayerStateCols) -> bool {
        &&& u64_in(cells[cols.entity_id as int], "player_state.entity_id") == Ok::<u64, DecodeError>(self.entity_id)
        &&& i32_in(cells[cols.sign_in_timestamp as int], "player_state.sign_in_timestamp")
            == Ok::<i32, DecodeError>(self.sign_in_timestamp)
        &&& i32_in(cells[cols.session_start_timestamp as int], "player_state.session_start_timestamp")
            == Ok::<i32, DecodeError>(self.session_start_timestamp)
        &&& bool_in(cells[cols.signed_in as int], "player_state.signed_in") == Ok::<bool, DecodeError>(self.signed_in)
    }

    /// The first cell that cannot be read, as an error.
    pub open spec fn error(cells: Seq<Cell>, cols: PlayerStateCols) -> Option<DecodeError> {
        either(
            failed(u64_in(cells[cols.entity_id as int], "player_state.entity_id")),
            either(
                failed(i32_in(cells[cols.sign_in_timestamp as int], "player_state.sign_in_timestamp")),
                either(
                    failed(i32_in(cells[cols.session_start_timestamp as int], "player_state.session_start_timestamp")),
                    failed(bool_in(cells[cols.signed_in as int], "player_state.signed_in")),
                ),
            ),
        )
    }
}

/// Reads a row of `player_state`.
pub fn decode_player_state_with_fields(cells: &[Cell], cols: PlayerStateCols) -> (r: Result<
    PlayerStateRow,
    DecodeError,
>)
    requires
        cols.fit(cells@.len()),
    ensures
        match r {
            Ok(row) => row.reads(cells@, cols) && PlayerStateRow::error(cells@, cols) is None,
            Err(e) => PlayerStateRow::error(cells@, cols) == Some(e),
        },
{
    let entity_id: u64 = cell_u64(&cells[cols.entity_id], "player_state.entity_id")?;
    let sign_in_timestamp: i32 = cell_i32(&cells[cols.sign_in_timestamp], "player_state.sign_in_timestamp")?;
    let session_start_timestamp: i32 =
        cell_i32(&cells[cols.session_start_timestamp], "player_state.session_start_timestamp")?;
    let signed_in: bool = cell_bool(&cells[cols.signed_in], "player_state.signed_in")?;
    Ok(
        PlayerStateRow {
            entity_id,
            sign_in_timestamp,
            session_start_timestamp,
            signed_in,
        },
    )
}

/// A row of `mobile_entity_state`.
#[derive(Debug, Clone, PartialEq, Eq)]
pub struct MobileEntityRow {
    pub entity_id: u64,
    /// Unix milliseconds (`mobile_entity_state.timestamp` is U64).
    pub timestamp_ms: u64,
    /// World position in milli-units (1000 = one tile). Players standing in
    /// an interior dimension keep their overworld row untouched.
    pub location_x: i32,
    pub location_z: i32,
    pub destination_x: i32,
    pub destination_z: i32,
    pub dimension: u32,
    pub is_walking: bool,
}

impl MobileEntityRow {
    /// What the cells of a row say.
    pub open spec fn reads(self, cells: Seq<Cell>, cols: MobileEntityCols) -> bool {
        &&& u64_in(cells[cols.entity_id as int], "mobile_entity.entity_id") == Ok::<u64, DecodeError>(self.entity_id)
        &&& u64_in(cells[cols.timestamp as int], "mobile_entity.timestamp") == Ok::<u64, DecodeError>(self.timestamp_ms)
        &&& i32_in(cells[cols.location_x as int], "mobile_entity.location_x") == Ok::<i32, DecodeError>(self.location_x)
        &&& i32_in(cells[cols.location_z as int], "mobile_entity.location_z") == Ok::<i32, DecodeError>(self.location_z)
        &&& i32_in(cells[cols.destination_x as int], "mobile_entity.destination_x")
            == Ok::<i32, DecodeError>(self.destination_x)
        &&& i32_in(cells[cols.destination_z as int], "mobile_entity.destination_z")
            == Ok::<i32, DecodeError>(self.destination_z)
        &&& u32_in(cells[cols.dimension as int], "mobile_entity.dimension") == Ok::<u32, DecodeError>(self.dimension)
        &&& bool_in(cells[cols.is_walking as int], "mobile_entity.is_walking")
            == Ok::<bool, DecodeError>(self.is_walking)
    }

    /// The first cell that cannot be read, as an error.
    pub open spec fn error(cells: Seq<Cell>, cols: MobileEntityCols) -> Option<DecodeError> {
        either(
            failed(u64_in(cells[cols.entity_id as int], "mobile_entity.entity_id")),
            either(
                failed(u64_in(cells[cols.timestamp as int], "mobile_entity.timestamp")),
                either(
                    failed(i32_in(cells[cols.location_x as int], "mobile_entity.location_x")),
                    either(
                        failed(i32_in(cells[cols.location_z as int], "mobile_entity.location_z")),
                        either(
                            failed(i32_in(cells[cols.destination_x as int], "mobile_entity.destination_x")),
                            either(
                                failed(i32_in(cells[cols.destination_z as int], "mobile_entity.destination_z")),
                                either(
                                    failed(u32_in(cells[cols.dimension as int], "mobile_entity.dimension")),
                                    failed(bool_in(cells[cols.is_walking as int], "mobile_entity.is_walking")),
                                ),
                            ),
                        ),
                    ),
                ),
            ),
        )
    }
}

/// Reads a row of `mobile_entity_state`.
pub fn decode_mobile_entity_with_fields(cells: &[Cell], cols: MobileEntityCols) -> (r: Result<
    MobileEntityRow,
    DecodeError,
>)
    requires
        cols.fit(cells@.len()),
    ensures
        match r {
            Ok(row) => row.reads(cells@, cols) && MobileEntityRow::error(cells@, cols) is None,
            Err(e) => MobileEntityRow::error(cells@, cols) == Some(e),
        },
{
    let entity_id: u64 = cell_u64(&cells[cols.entity_id], "mobile_entity.entity_id")?;
    let timestamp_ms: u64 = cell_u64(&cells[cols.timestamp], "mobile_entity.timestamp")?;
    let location_x: i32 = cell_i32(&cells[cols.location_x], "mobile_entity.location_x")?;
    let location_z: i32 = cell_i32(&cells[cols.location_z], "mobile_entity.location_z")?;
    let destination_x: i32 = cell_i32(&cells[cols.destination_x], "mobile_entity.destination_x")?;
    let destination_z: i32 = cell_i32(&cells[cols.destination_z], "mobile_entity.destination_z")?;
    let dimension: u32 = cell_u32(&cells[cols.dimension], "mobile_entity.dimension")?;
    let is_walking: bool = cell_bool(&cells[cols.is_walking], "mobile_entity.is_walking")?;
    Ok(
        MobileEntityRow {
            entity_id,
            timestamp_ms,
            location_x,
            location_z,
            destination_x,
            destination_z,
            dimension,
            is_walking,
        },
    )
}

/// A row of `stamina_state`.
#[derive(Debug, Clone, PartialEq, Eq)]
pub struct StaminaRow {
    pub entity_id: u64,
    /// Unix micros of the last stamina decrease (regen clock).
    pub last_decrease_micros: i64,
    pub stamina: Single,
}

impl StaminaRow {
    /// What the cells of a row say.
    pub open spec fn reads(self, cells: Seq<Cell>, cols: StaminaCols) -> bool {
        &&& u64_in(cells[cols.entity_id as int], "stamina.entity_id") == Ok::<u64, DecodeError>(self.entity_id)
        &&& timestamp_in(cells[cols.last_stamina_decrease_timestamp as int], "stamina.last_stamina_decrease_timestamp")
            == Ok::<i64, DecodeError>(self.last_decrease_micros)
        &&& single_in(cells[cols.stamina as int], "stamina.stamina") == Ok::<Single, DecodeError>(self.stamina)
    }

    /// The first cell that cannot be read, as an error.
    pub open spec fn error(cells: Seq<Cell>, cols: StaminaCols) -> Option<DecodeError> {
        either(
            failed(u64_in(cells[cols.entity_id as int], "stamina.entity_id")),
            either(
                failed(timestamp_in(cells[cols.last_stamina_decrease_timestamp as int], "stamina.last_stamina_decrease_timestamp")),
                failed(single_in(cells[cols.stamina as int], "stamina.stamina")),
            ),
        )
    }
}

/// Reads a row of `stamina_state`.
pub fn decode_stamina_with_fields(cells: &[Cell], cols: StaminaCols) -> (r: Result<StaminaRow, DecodeError>)
    requires
        cols.fit(cells@.len()),
    ensures
        match r {
            Ok(row) => row.reads(cells@, cols) && StaminaRow::error(cells@, cols) is None,
            Err(e) => StaminaRow::error(cells@, cols) == Some(e),
        },
{
    let entity_id: u64 = cell_u64(&cells[cols.entity_id], "stamina.entity_id")?;
    let last_decrease_micros: i64 =
        decode_timestamp_micros(&cells[cols.last_stamina_decrease_timestamp], "stamina.last_stamina_decrease_timestamp")?;
    let stamina: Single = cell_f32(&cells[cols.stamina], "stamina.stamina")?;
    Ok(
        StaminaRow {
            entity_id,
            last_decrease_micros,
            stamina,
        },
    )
}

/// A row of `active_buff_state`.
#[derive(Debug, Clone, PartialEq, Eq, Default)]
pub struct ActiveBuffRow {
    pub entity_id: u64,
    pub buffs: Vec<BuffEntry>,
}

impl ActiveBuffRow {
    /// What the cells of a row say.
    pub open spec fn reads(self, cells: Seq<Cell>, cols: ActiveBuffCols) -> bool {
        &&& u64_in(cells[cols.entity_id as int], "active_buff.entity_id") == Ok::<u64, DecodeError>(self.entity_id)
        &&& buffs_in(cells[cols.active_buffs as int]) == Ok::<Seq<BuffModel>, DecodeError>(buff_models(self.buffs@))
    }

    /// The first cell that cannot be read, as an error.
    pub open spec fn error(cells: Seq<Cell>, cols: ActiveBuffCols) -> Option<DecodeError> {
        either(
            failed(u64_in(cells[cols.entity_id as int], "active_buff.entity_id")),
            failed(buffs_in(cells[cols.active_buffs as int])),
        )
    }
}

/// Reads a row of `active_buff_state`.
pub fn decode_active_buff_with_fields(cells: &[Cell], cols: ActiveBuffCols) -> (r: Result<ActiveBuffRow, DecodeError>)
    requires
        cols.fit(cells@.len()),
    ensures
        match r {
            Ok(row) => row.reads(cells@, cols) && ActiveBuffRow::error(cells@, cols) is None,
            Err(e) => ActiveBuffRow::error(cells@, cols) == Some(e),
        },
{
    let entity_id: u64 = cell_u64(&cells[cols.entity_id], "active_buff.entity_id")?;
    let buffs: Vec<BuffEntry> = decode_buff_entries(&cells[cols.active_buffs])?;
    Ok(
        ActiveBuffRow {
            entity_id,
            buffs,
        },
    )
}

/// A row of `player_action_state`.
#[derive(Debug, Clone, PartialEq, Eq)]
pub struct PlayerActionRow {
    pub auto_id: u64,
    pub entity_id: u64,
    /// Unix milliseconds.
    pub start_time_ms: u64,
    /// Milliseconds; `start_time_ms + duration_ms` is the completion instant.
    pub duration_ms: u64,
    pub target: Option<u64>,
    pub recipe_id: Option<i32>,
    /// Upstream sum variant, e.g. `Extract`, `Craft`, `None`.
    pub action_type: String,
    /// `Base` or `UpperBody`.
    pub layer: String,
    /// `Success`, `TimingFail`, `Fail` or `Cancel`.
    pub last_action_result: String,
    pub client_cancel: bool,
}

impl PlayerActionRow {
    /// What the cells of a row say.
    pub open spec fn reads(self, cells: Seq<Cell>, cols: PlayerActionCols) -> bool {
        &&& u64_in(cells[cols.auto_id as int], "player_action.auto_id") == Ok::<u64, DecodeError>(self.auto_id)
        &&& u64_in(cells[cols.entity_id as int], "player_action.entity_id") == Ok::<u64, DecodeError>(self.entity_id)
        &&& u64_in(cells[cols.start_time as int], "player_action.start_time")
            == Ok::<u64, DecodeError>(self.start_time_ms)
        &&& u64_in(cells[cols.duration as int], "player_action.duration") == Ok::<u64, DecodeError>(self.duration_ms)
        &&& opt_u64_in(cells[cols.target as int], "player_action.target") == Ok::<Option<u64>, DecodeError>(self.target)
        &&& opt_i32_in(cells[cols.recipe_id as int], "player_action.recipe_id")
            == Ok::<Option<i32>, DecodeError>(self.recipe_id)
        &&& variant_in(cells[cols.action_type as int], "player_action.action_type")
            == Ok::<Seq<char>, DecodeError>(self.action_type@)
        &&& variant_in(cells[cols.layer as int], "player_action.layer") == Ok::<Seq<char>, DecodeError>(self.layer@)
        &&& variant_in(cells[cols.last_action_result as int], "player_action.last_action_result")
            == Ok::<Seq<char>, DecodeError>(self.last_action_result@)
        &&& bool_in(cells[cols.client_cancel as int], "player_action.client_cancel")
            == Ok::<bool, DecodeError>(self.client_cancel)
    }

    /// The first cell that cannot be read, as an error.
    pub open spec fn error(cells: Seq<Cell>, cols: PlayerActionCols) -> Option<DecodeError> {
        either(
            failed(u64_in(cells[cols.auto_id as int], "player_action.auto_id")),
            either(
                failed(u64_in(cells[cols.entity_id as int], "player_action.entity_id")),
                either(
                    failed(u64_in(cells[cols.start_time as int], "player_action.start_time")),
                    either(
                        failed(u64_in(cells[cols.duration as int], "player_action.duration")),
                        either(
                            failed(opt_u64_in(cells[cols.target as int], "player_action.target")),
                            either(
                                failed(opt_i32_in(cells[cols.recipe_id as int], "player_action.recipe_id")),
                                either(
                                    failed(variant_in(cells[cols.action_type as int], "player_action.action_type")),
                                    either(
                                        failed(variant_in(cells[cols.layer as int], "player_action.layer")),
                                        either(
                                            failed(variant_in(cells[cols.last_action_result as int], "player_action.last_action_result")),
                                            failed(bool_in(cells[cols.client_cancel as int], "player_action.client_cancel")),
                                        ),
                                    ),
                                ),
                            ),
                        ),
                    ),
                ),
            ),
        )
    }
}

/// Reads a row of `player_action_state`.
pub fn decode_player_action_with_fields(cells: &[Cell], cols: PlayerActionCols) -> (r: Result<
    PlayerActionRow,
    DecodeError,
>)
    requires
        cols.fit(cells@.len()),
    ensures
        match r {
            Ok(row) => row.reads(cells@, cols) && PlayerActionRow::error(cells@, cols) is None,
            Err(e) => PlayerActionRow::error(cells@, cols) == Some(e),
        },
{
    let auto_id: u64 = cell_u64(&cells[cols.auto_id], "player_action.auto_id")?;
    let entity_id: u64 = cell_u64(&cells[cols.entity_id], "player_action.entity_id")?;
    let start_time_ms: u64 = cell_u64(&cells[cols.start_time], "player_action.start_time")?;
    let duration_ms: u64 = cell_u64(&cells[cols.duration], "player_action.duration")?;
    let target: Option<u64> = cell_opt_u64_sum(&cells[cols.target], "player_action.target")?;
    let recipe_id: Option<i32> = cell_opt_i32_sum(&cells[cols.recipe_id], "player_action.recipe_id")?;
    let action_type: String = sum_variant_pascal(&cells[cols.action_type], "player_action.action_type")?;
    let layer: String = sum_variant_pascal(&cells[cols.layer], "player_action.layer")?;
    let last_action_result: String =
        sum_variant_pascal(&cells[cols.last_action_result], "player_action.last_action_result")?;
    let client_cancel: bool = cell_bool(&cells[cols.client_cancel], "player_action.client_cancel")?;
    Ok(
        PlayerActionRow {
            auto_id,
            entity_id,
            start_time_ms,
            duration_ms,
            target,
            recipe_id,
            action_type,
            layer,
            last_action_result,
            client_cancel,
        },
    )
}

/// A row of `resource_health_state`.
#[derive(Debug, Clone, PartialEq, Eq)]
pub struct ResourceHealthRow {
    pub entity_id: u64,
    pub health: i32,
}

impl ResourceHealthRow {
    /// What the cells of a row say.
    pub open spec fn reads(self, cells: Seq<Cell>, cols: ResourceHealthCols) -> bool {
        &&& u64_in(cells[cols.entity_id as int], "resource_health.entity_id") == Ok::<u64, DecodeError>(self.entity_id)
        &&& i32_in(cells[cols.health as int], "resource_health.health") == Ok::<i32, DecodeError>(self.health)
    }

    /// The first cell that cannot be read, as an error.
    pub open spec fn error(cells: Seq<Cell>, cols: ResourceHealthCols) -> Option<DecodeError> {
        either(
            failed(u64_in(cells[cols.entity_id as int], "resource_health.entity_id")),
            failed(i32_in(cells[cols.health as int], "resource_health.health")),
        )
    }
}

/// Reads a row of `resource_health_state`.
pub fn decode_resource_health_with_fields(cells: &[Cell], cols: ResourceHealthCols) -> (r: Result<
    ResourceHealthRow,
    DecodeError,
>)
    requires
        cols.fit(cells@.len()),
    ensures
        match r {
            Ok(row) => row.reads(cells@, cols) && ResourceHealthRow::error(cells@, cols) is None,
            Err(e) => ResourceHealthRow::error(cells@, cols) == Some(e),
        },
{
    let entity_id: u64 = cell_u64(&cells[cols.entity_id], "resource_health.entity_id")?;
    let health: i32 = cell_i32(&cells[cols.health], "resource_health.health")?;
    Ok(
        ResourceHealthRow {
            entity_id,
            health,
        },
    )
}

/// A row of `resource_desc`.
#[derive(Debug, Clone, PartialEq, Eq)]
pub struct ResourceDescRow {
    pub id: i32,
    pub name: String,
    pub max_health: i32,
    /// Seconds the resource lingers after its despawn clock starts (F32).
    pub despawn_time: Single,
    /// Resource spawned in this one's place when destroyed (growth cycle).
    pub on_destroy_yield_resource_id: i32,
    /// Seconds until a depleted resource reappears (F32).
    pub scheduled_respawn_time: Single,
}

impl ResourceDescRow {
    /// What the cells of a row say.
    pub open spec fn reads(self, cells: Seq<Cell>, cols: ResourceDescCols) -> bool {
        &&& i32_in(cells[cols.id as int], "resource_desc.id") == Ok::<i32, DecodeError>(self.id)
        &&& text_in(cells[cols.name as int], "resource_desc.name") == Ok::<Seq<char>, DecodeError>(self.name@)
        &&& i32_in(cells[cols.max_health as int], "resource_desc.max_health") == Ok::<i32, DecodeError>(self.max_health)
        &&& single_in(cells[cols.despawn_time as int], "resource_desc.despawn_time")
            == Ok::<Single, DecodeError>(self.despawn_time)
        &&& i32_in(cells[cols.on_destroy_yield_resource_id as int], "resource_desc.on_destroy_yield_resource_id")
            == Ok::<i32, DecodeError>(self.on_destroy_yield_resource_id)
        &&& single_in(cells[cols.scheduled_respawn_time as int], "resource_desc.scheduled_respawn_time")
            == Ok::<Single, DecodeError>(self.scheduled_respawn_time)
    }

    /// The first cell that cannot be read, as an error.
    pub open spec fn error(cells: Seq<Cell>, cols: ResourceDescCols) -> Option<DecodeError> {
        either(
            failed(i32_in(cells[cols.id as int], "resource_desc.id")),
            either(
                failed(text_in(cells[cols.name as int], "resource_desc.name")),
                either(
                    failed(i32_in(cells[cols.max_health as int], "resource_desc.max_health")),
                    either(
                        failed(single_in(cells[cols.despawn_time as int], "resource_desc.despawn_time")),
                        either(
                            failed(i32_in(cells[cols.on_destroy_yield_resource_id as int], "resource_desc.on_destroy_yield_resource_id")),
                            failed(single_in(cells[cols.scheduled_respawn_time as int], "resource_desc.scheduled_respawn_time")),
                        ),
                    ),
                ),
            ),
        )
    }
}

/// Reads a row of `resource_desc`.
pub fn decode_resource_desc_with_fields(cells: &[Cell], cols: ResourceDescCols) -> (r: Result<
    ResourceDescRow,
    DecodeError,
>)
    requires
        cols.fit(cells@.len()),
    ensures
        match r {
            Ok(row) => row.reads(cells@, cols) && ResourceDescRow::error(cells@, cols) is None,
            Err(e) => ResourceDescRow::error(cells@, cols) == Some(e),
        },
{
    let id: i32 = cell_i32(&cells[cols.id], "resource_desc.id")?;
    let name: String = cell_string(&cells[cols.name], "resource_desc.name")?;
    let max_health: i32 = cell_i32(&cells[cols.max_health], "resource_desc.max_health")?;
    let despawn_time: Single = cell_f32(&cells[cols.despawn_time], "resource_desc.despawn_time")?;
    let on_destroy_yield_resource_id: i32 =
        cell_i32(&cells[cols.on_destroy_yield_resource_id], "resource_desc.on_destroy_yield_resource_id")?;
    let scheduled_respawn_time: Single =
        cell_f32(&cells[cols.scheduled_respawn_time], "resource_desc.scheduled_respawn_time")?;
    Ok(
        ResourceDescRow {
            id,
            name,
            max_health,
            despawn_time,
            on_destroy_yield_resource_id,
            scheduled_respawn_time,
        },
    )
}

/// A row of `extraction_recipe_desc`.
#[derive(Debug, Clone, PartialEq, Eq)]
pub struct ExtractionRecipeRow {
    pub id: i32,
    pub resource_id: i32,
}

impl ExtractionRecipeRow {
    /// What the cells of a row say.
    pub open spec fn reads(self, cells: Seq<Cell>, cols: ExtractionRecipeCols) -> bool {
        &&& i32_in(cells[cols.id as int], "extraction_recipe.id") == Ok::<i32, DecodeError>(self.id)
        &&& i32_in(cells[cols.resource_id as int], "extraction_recipe.resource_id")
            == Ok::<i32, DecodeError>(self.resource_id)
    }

    /// The first cell that cannot be read, as an error.
    pub open spec fn error(cells: Seq<Cell>, cols: ExtractionRecipeCols) -> Option<DecodeError> {
        either(
            failed(i32_in(cells[cols.id as int], "extraction_recipe.id")),
            failed(i32_in(cells[cols.resource_id as int], "extraction_recipe.resource_id")),
        )
    }
}

/// Reads a row of `extraction_recipe_desc`.
pub fn decode_extraction_recipe_with_fields(cells: &[Cell], cols: ExtractionRecipeCols) -> (r: Result<
    ExtractionRecipeRow,
    DecodeError,
>)
    requires
        cols.fit(cells@.len()),
    ensures
        match r {
            Ok(row) => row.reads(cells@, cols) && ExtractionRecipeRow::error(cells@, cols) is None,
            Err(e) => ExtractionRecipeRow::error(cells@, cols) == Some(e),
        },
{
    let id: i32 = cell_i32(&cells[cols.id], "extraction_recipe.id")?;
    let resource_id: i32 = cell_i32(&cells[cols.resource_id], "extraction_recipe.resource_id")?;
    Ok(
        ExtractionRecipeRow {
            id,
            resource_id,
        },
    )
}

/// A row of `character_stat_desc`.
#[derive(Debug, Clone, PartialEq, Eq)]
pub struct CharacterStatDescRow {
    pub stat_type: i32,
    pub name: String,
}

impl CharacterStatDescRow {
    /// What the cells of a row say.
    pub open spec fn reads(self, cells: Seq<Cell>, cols: CharacterStatDescCols) -> bool {
        &&& i32_in(cells[cols.stat_type as int], "character_stat_desc.stat_type")
            == Ok::<i32, DecodeError>(self.stat_type)
        &&& text_in(cells[cols.name as int], "character_stat_desc.name") == Ok::<Seq<char>, DecodeError>(self.name@)
    }

    /// The first cell that cannot be read, as an error.
    pub open spec fn error(cells: Seq<Cell>, cols: CharacterStatDescCols) -> Option<DecodeError> {
        either(
            failed(i32_in(cells[cols.stat_type as int], "character_stat_desc.stat_type")),
            failed(text_in(cells[cols.name as int], "character_stat_desc.name")),
        )
    }
}

/// Reads a row of `character_stat_desc`.
pub fn decode_character_stat_desc_with_fields(cells: &[Cell], cols: CharacterStatDescCols) -> (r: Result<
    CharacterStatDescRow,
    DecodeError,
>)
    requires
        cols.fit(cells@.len()),
    ensures
        match r {
            Ok(row) => row.reads(cells@, cols) && CharacterStatDescRow::error(cells@, cols) is None,
            Err(e) => CharacterStatDescRow::error(cells@, cols) == Some(e),
        },
{
    let stat_type: i32 = cell_i32(&cells[cols.stat_type], "character_stat_desc.stat_type")?;
    let name: String = cell_string(&cells[cols.name], "character_stat_desc.name")?;
    Ok(
        CharacterStatDescRow {
            stat_type,
            name,
        },
    )
}

/// A row of `character_stats_state`.
#[derive(Debug, Clone, PartialEq, Eq)]
pub struct CharacterStatsRow {
    pub entity_id: u64,
    /// Indexed by `character_stat_desc.stat_type` (0 = Maximum Health,
    /// 1 = Maximum Stamina).
    pub values: Vec<Single>,
}

impl CharacterStatsRow {
    /// What the cells of a row say.
    pub open spec fn reads(self, cells: Seq<Cell>, cols: CharacterStatsCols) -> bool {
        &&& u64_in(cells[cols.entity_id as int], "character_stats.entity_id") == Ok::<u64, DecodeError>(self.entity_id)
        &&& singles_in(cells[cols.values as int], "character_stats.values")
            == Ok::<Seq<Single>, DecodeError>(self.values@)
    }

    /// The first cell that cannot be read, as an error.
    pub open spec fn error(cells: Seq<Cell>, cols: CharacterStatsCols) -> Option<DecodeError> {
        either(
            failed(u64_in(cells[cols.entity_id as int], "character_stats.entity_id")),
            failed(singles_in(cells[cols.values as int], "character_stats.values")),
        )
    }
}

/// Reads a row of `character_stats_state`.
pub fn decode_character_stats_with_fields(cells: &[Cell], cols: CharacterStatsCols) -> (r: Result<
    CharacterStatsRow,
    DecodeError,
>)
    requires
        cols.fit(cells@.len()),
    ensures
        match r {
            Ok(row) => row.reads(cells@, cols) && CharacterStatsRow::error(cells@, cols) is None,
            Err(e) => CharacterStatsRow::error(cells@, cols) == Some(e),
        },
{
    let entity_id: u64 = cell_u64(&cells[cols.entity_id], "character_stats.entity_id")?;
    let values: Vec<Single> = cell_f32_array(&cells[cols.values], "character_stats.values")?;
    Ok(
        CharacterStatsRow {
            entity_id,
            values,
        },
    )
}

/// A row of `player_lowercase_username_state`.
#[derive(Debug, Clone, PartialEq, Eq)]
pub struct BitmeLowercaseUsernameRow {
    pub entity_id: u64,
    pub username_lowercase: String,
}

impl BitmeLowercaseUsernameRow {
    /// What the cells of a row say.
    pub open spec fn reads(self, cells: Seq<Cell>, cols: (usize, usize)) -> bool {
        &&& u64_in(cells[cols.0 as int], "player_lowercase_username.entity_id")
            == Ok::<u64, DecodeError>(self.entity_id)
        &&& text_in(cells[cols.1 as int], "player_lowercase_username.username_lowercase")
            == Ok::<Seq<char>, DecodeError>(self.username_lowercase@)
    }

    /// The first cell that cannot be read, as an error.
    pub open spec fn error(cells: Seq<Cell>, cols: (usize, usize)) -> Option<DecodeError> {
        either(
            failed(u64_in(cells[cols.0 as int], "player_lowercase_username.entity_id")),
            failed(text_in(cells[cols.1 as int], "player_lowercase_username.username_lowercase")),
        )
    }
}

/// Reads a row of `player_lowercase_username_state`.
pub fn decode_bitme_lowercase_username(cells: &[Cell], cols: (usize, usize)) -> (r: Result<
    BitmeLowercaseUsernameRow,
    DecodeError,
>)
    requires
        cols.0 < cells@.len(),
        cols.1 < cells@.len(),
    ensures
        match r {
            Ok(row) => row.reads(cells@, cols) && BitmeLowercaseUsernameRow::error(cells@, cols) is None,
            Err(e) => BitmeLowercaseUsernameRow::error(cells@, cols) == Some(e),
        },
{
    let entity_id: u64 = cell_u64(&cells[cols.0], "player_lowercase_username.entity_id")?;
    let username_lowercase: String = cell_string(&cells[cols.1], "player_lowercase_username.username_lowercase")?;
    Ok(
        BitmeLowercaseUsernameRow {
            entity_id,
            username_lowercase,
        },
    )
}

/// A row of `user_state`.
#[derive(Debug, Clone, PartialEq, Eq)]
pub struct BitmeUserRow {
    pub entity_id: u64,
    /// Raw little-endian identity bytes (canonical hex via [`identity_hex`]).
    pub identity: [u8; 32],
}

impl BitmeUserRow {
    /// What the cells of a row say.
    pub open spec fn reads(self, cells: Seq<Cell>, cols: (usize, usize)) -> bool {
        &&& u64_in(cells[cols.0 as int], "user_state.entity_id") == Ok::<u64, DecodeError>(self.entity_id)
        &&& identity_in(cells[cols.1 as int], "user_state.identity") == Ok::<Seq<u8>, DecodeError>(self.identity@)
    }

    /// The first cell that cannot be read, as an error.
    pub open spec fn error(cells: Seq<Cell>, cols: (usize, usize)) -> Option<DecodeError> {
        either(
            failed(u64_in(cells[cols.0 as int], "user_state.entity_id")),
            failed(identity_in(cells[cols.1 as int], "user_state.identity")),
        )
    }
}

/// Reads a row of `user_state`.
pub fn decode_bitme_user(cells: &[Cell], cols: (usize, usize)) -> (r: Result<BitmeUserRow, DecodeError>)
    requires
        cols.0 < cells@.len(),
        cols.1 < cells@.len(),
    ensures
        match r {
            Ok(row) => row.reads(cells@, cols) && BitmeUserRow::error(cells@, cols) is None,
            Err(e) => BitmeUserRow::error(cells@, cols) == Some(e),
        },
{
    let entity_id: u64 = cell_u64(&cells[cols.0], "user_state.entity_id")?;
    let identity: [u8; 32] = cell_identity(&cells[cols.1], "user_state.identity")?;
    Ok(
        BitmeUserRow {
            entity_id,
            identity,
        },
    )
}

/// A row of `user_region_state`.
#[derive(Debug, Clone, PartialEq, Eq)]
pub struct BitmeUserRegionRow {
    pub identity: [u8; 32],
    pub region_id: u8,
}

impl BitmeUserRegionRow {
    /// What the cells of a row say.
    pub open spec fn reads(self, cells: Seq<Cell>, cols: (usize, usize)) -> bool {
        &&& identity_in(cells[cols.0 as int], "user_region_state.identity")
            == Ok::<Seq<u8>, DecodeError>(self.identity@)
        &&& u8_in(cells[cols.1 as int], "user_region_state.region_id") == Ok::<u8, DecodeError>(self.region_id)
    }

    /// The first cell that cannot be read, as an error.
    pub open spec fn error(cells: Seq<Cell>, cols: (usize, usize)) -> Option<DecodeError> {
        either(
            failed(identity_in(cells[cols.0 as int], "user_region_state.identity")),
            failed(u8_in(cells[cols.1 as int], "user_region_state.region_id")),
        )
    }
}

/// Reads a row of `user_region_state`.
pub fn decode_bitme_user_region(cells: &[Cell], cols: (usize, usize)) -> (r: Result<BitmeUserRegionRow, DecodeError>)
    requires
        cols.0 < cells@.len(),
        cols.1 < cells@.len(),
    ensures
        match r {
            Ok(row) => row.reads(cells@, cols) && BitmeUserRegionRow::error(cells@, cols) is None,
            Err(e) => BitmeUserRegionRow::error(cells@, cols) == Some(e),
        },
{
    let identity: [u8; 32] = cell_identity(&cells[cols.0], "user_region_state.identity")?;
    let region_id: u8 = cell_u8(&cells[cols.1], "user_region_state.region_id")?;
    Ok(
        BitmeUserRegionRow {
            identity,
            region_id,
        },
    )
}

/// A row of `region_connection_info`.
#[derive(Debug, Clone, PartialEq, Eq)]
pub struct BitmeRegionConnectionRow {
    pub id: u8,
    pub host: String,
    pub module: String,
}

impl BitmeRegionConnectionRow {
    /// What the cells of a row say.
    pub open spec fn reads(self, cells: Seq<Cell>, cols: (usize, usize, usize)) -> bool {
        &&& u8_in(cells[cols.0 as int], "region_connection_info.id") == Ok::<u8, DecodeError>(self.id)
        &&& text_in(cells[cols.1 as int], "region_connection_info.host") == Ok::<Seq<char>, DecodeError>(self.host@)
        &&& text_in(cells[cols.2 as int], "region_connection_info.module") == Ok::<Seq<char>, DecodeError>(self.module@)
    }

    /// The first cell that cannot be read, as an error.
    pub open spec fn error(cells: Seq<Cell>, cols: (usize, usize, usize)) -> Option<DecodeError> {
        either(
            failed(u8_in(cells[cols.0 as int], "region_connection_info.id")),
            either(
                failed(text_in(cells[cols.1 as int], "region_connection_info.host")),
                failed(text_in(cells[cols.2 as int], "region_connection_info.module")),
            ),
        )
    }
}

/// Reads a row of `region_connection_info`.
pub fn decode_bitme_region_connection(cells: &[Cell], cols: (usize, usize, usize)) -> (r: Result<
    BitmeRegionConnectionRow,
    DecodeError,
>)
    requires
        cols.0 < cells@.len(),
        cols.1 < cells@.len(),
        cols.2 < cells@.len(),
    ensures
        match r {
            Ok(row) => row.reads(cells@, cols) && BitmeRegionConnectionRow::error(cells@, cols) is None,
            Err(e) => BitmeRegionConnectionRow::error(cells@, cols) == Some(e),
        },
{
    let id: u8 = cell_u8(&cells[cols.0], "region_connection_info.id")?;
    let host: String = cell_string(&cells[cols.1], "region_connection_info.host")?;
    let module: String = cell_string(&cells[cols.2], "region_connection_info.module")?;
    Ok(
        BitmeRegionConnectionRow {
            id,
            host,
            module,
        },
    )
}

/// A row of `world_region_name_state`.
#[derive(Debug, Clone, PartialEq, Eq)]
pub struct BitmeWorldRegionNameRow {
    pub id: u16,
    pub player_facing_name: String,
}

impl BitmeWorldRegionNameRow {
    /// What the cells of a row say.
    pub open spec fn reads(self, cells: Seq<Cell>, cols: (usize, usize)) -> bool {
        &&& u16_in(cells[cols.0 as int], "world_region_name_state.id") == Ok::<u16, DecodeError>(self.id)
        &&& text_in(cells[cols.1 as int], "world_region_name_state.player_facing_name")
            == Ok::<Seq<char>, DecodeError>(self.player_facing_name@)
    }

    /// The first cell that cannot be read, as an error.
    pub open spec fn error(cells: Seq<Cell>, cols: (usize, usize)) -> Option<DecodeError> {
        either(
            failed(u16_in(cells[cols.0 as int], "world_region_name_state.id")),
            failed(text_in(cells[cols.1 as int], "world_region_name_state.player_facing_name")),
        )
    }
}

/// Reads a row of `world_region_name_state`.
pub fn decode_bitme_world_region_name(cells: &[Cell], cols: (usize, usize)) -> (r: Result<
    BitmeWorldRegionNameRow,
    DecodeError,
>)
    requires
        cols.0 < cells@.len(),
        cols.1 < cells@.len(),
    ensures
        match r {
            Ok(row) => row.reads(cells@, cols) && BitmeWorldRegionNameRow::error(cells@, cols) is None,
            Err(e) => BitmeWorldRegionNameRow::error(cells@, cols) == Some(e),
        },
{
    let id: u16 = cell_u16(&cells[cols.0], "world_region_name_state.id")?;
    let player_facing_name: String = cell_string(&cells[cols.1], "world_region_name_state.player_facing_name")?;
    Ok(
        BitmeWorldRegionNameRow {
            id,
            player_facing_name,
        },
    )
}

/// A row of `deployable_state_v2`.
#[derive(Debug, Clone, PartialEq, Eq)]
pub struct DeployableRow {
    pub entity_id: u64,
    pub owner_id: u64,
    pub claim_entity_id: u64,
    pub deployable_description_id: i32,
    pub nickname: String,
}

impl DeployableRow {
    /// What the cells of a row say.
    pub open spec fn reads(self, cells: Seq<Cell>, cols: DeployableCols) -> bool {
        &&& u64_in(cells[cols.entity_id as int], "deployable.entity_id") == Ok::<u64, DecodeError>(self.entity_id)
        &&& u64_in(cells[cols.owner_id as int], "deployable.owner_id") == Ok::<u64, DecodeError>(self.owner_id)
        &&& u64_in(cells[cols.claim_entity_id as int], "deployable.claim_entity_id")
            == Ok::<u64, DecodeError>(self.claim_entity_id)
        &&& i32_in(cells[cols.deployable_description_id as int], "deployable.deployable_description_id")
            == Ok::<i32, DecodeError>(self.deployable_description_id)
        &&& text_in(cells[cols.nickname as int], "deployable.nickname") == Ok::<Seq<char>, DecodeError>(self.nickname@)
    }

    /// The first cell that cannot be read, as an error.
    pub open spec fn error(cells: Seq<Cell>, cols: DeployableCols) -> Option<DecodeError> {
        either(
            failed(u64_in(cells[cols.entity_id as int], "deployable.entity_id")),
            either(
                failed(u64_in(cells[cols.owner_id as int], "deployable.owner_id")),
                either(
                    failed(u64_in(cells[cols.claim_entity_id as int], "deployable.claim_entity_id")),
                    either(
                        failed(i32_in(cells[cols.deployable_description_id as int], "deployable.deployable_description_id")),
                        failed(text_in(cells[cols.nickname as int], "deployable.nickname")),
                    ),
                ),
            ),
        )
    }
}

/// Reads a row of `deployable_state_v2`.
pub fn decode_deployable_with_fields(cells: &[Cell], cols: DeployableCols) -> (r: Result<DeployableRow, DecodeError>)
    requires
        cols.fit(cells@.len()),
    ensures
        match r {
            Ok(row) => row.reads(cells@, cols) && DeployableRow::error(cells@, cols) is None,
            Err(e) => DeployableRow::error(cells@, cols) == Some(e),
        },
{
    let entity_id: u64 = cell_u64(&cells[cols.entity_id], "deployable.entity_id")?;
    let owner_id: u64 = cell_u64(&cells[cols.owner_id], "deployable.owner_id")?;
    let claim_entity_id: u64 = cell_u64(&cells[cols.claim_entity_id], "deployable.claim_entity_id")?;
    let deployable_description_id: i32 =
        cell_i32(&cells[cols.deployable_description_id], "deployable.deployable_description_id")?;
    let nickname: String = cell_string(&cells[cols.nickname], "deployable.nickname")?;
    Ok(
        DeployableRow {
            entity_id,
            owner_id,
            claim_entity_id,
            deployable_description_id,
            nickname,
        },
    )
}

/// A row of `deployable_desc`.
#[derive(Debug, Clone, PartialEq, Eq)]
pub struct DeployableDescRow {
    pub id: i32,
    pub name: String,
    pub kind: DeployableKind,
}

impl DeployableDescRow {
    /// What the cells of a row say.
    pub open spec fn reads(self, cells: Seq<Cell>, cols: DeployableDescCols) -> bool {
        &&& i32_in(cells[cols.id as int], "deployable_desc.id") == Ok::<i32, DecodeError>(self.id)
        &&& text_in(cells[cols.name as int], "deployable_desc.name") == Ok::<Seq<char>, DecodeError>(self.name@)
        &&& kind_in(cells[cols.deployable_type as int]) == Ok::<DeployableKind, DecodeError>(self.kind)
    }

    /// The first cell that cannot be read, as an error.
    pub open spec fn error(cells: Seq<Cell>, cols: DeployableDescCols) -> Option<DecodeError> {
        either(
            failed(i32_in(cells[cols.id as int], "deployable_desc.id")),
            either(
                failed(text_in(cells[cols.name as int], "deployable_desc.name")),
                failed(kind_in(cells[cols.deployable_type as int])),
            ),
        )
    }
}

/// Reads a row of `deployable_desc`.
pub fn decode_deployable_desc_with_fields(cells: &[Cell], cols: DeployableDescCols) -> (r: Result<
    DeployableDescRow,
    DecodeError,
>)
    requires
        cols.fit(cells@.len()),
    ensures
        match r {
            Ok(row) => row.reads(cells@, cols) && DeployableDescRow::error(cells@, cols) is None,
            Err(e) => DeployableDescRow::error(cells@, cols) == Some(e),
        },
{
    let id: i32 = cell_i32(&cells[cols.id], "deployable_desc.id")?;
    let name: String = cell_string(&cells[cols.name], "deployable_desc.name")?;
    let kind: DeployableKind = deployable_kind_from_cell(&cells[cols.deployable_type])?;
    Ok(
        DeployableDescRow {
            id,
            name,
            kind,
        },
    )
}

/// A row of `player_housing_state`.
#[derive(Debug, Clone, PartialEq, Eq)]
pub struct PlayerHousingRow {
    /// Player entity id (PK): not a separate housing entity.
    pub entity_id: u64,
    pub entrance_building_entity_id: u64,
    pub network_entity_id: u64,
    pub rank: i32,
    pub is_empty: bool,
    pub region_index: u8,
}

impl PlayerHousingRow {
    /// What the cells of a row say.
    pub open spec fn reads(self, cells: Seq<Cell>, cols: PlayerHousingCols) -> bool {
        &&& u64_in(cells[cols.entity_id as int], "player_housing.entity_id") == Ok::<u64, DecodeError>(self.entity_id)
        &&& u64_in(cells[cols.entrance_building_entity_id as int], "player_housing.entrance_building_entity_id")
            == Ok::<u64, DecodeError>(self.entrance_building_entity_id)
        &&& u64_in(cells[cols.network_entity_id as int], "player_housing.network_entity_id")
            == Ok::<u64, DecodeError>(self.network_entity_id)
        &&& i32_in(cells[cols.rank as int], "player_housing.rank") == Ok::<i32, DecodeError>(self.rank)
        &&& bool_in(cells[cols.is_empty as int], "player_housing.is_empty") == Ok::<bool, DecodeError>(self.is_empty)
        &&& u8_in(cells[cols.region_index as int], "player_housing.region_index")
            == Ok::<u8, DecodeError>(self.region_index)
    }

    /// The first cell that cannot be read, as an error.
    pub open spec fn error(cells: Seq<Cell>, cols: PlayerHousingCols) -> Option<DecodeError> {
        either(
            failed(u64_in(cells[cols.entity_id as int], "player_housing.entity_id")),
            either(
                failed(u64_in(cells[cols.entrance_building_entity_id as int], "player_housing.entrance_building_entity_id")),
                either(
                    failed(u64_in(cells[cols.network_entity_id as int], "player_housing.network_entity_id")),
                    either(
                        failed(i32_in(cells[cols.rank as int], "player_housing.rank")),
                        either(
                            failed(bool_in(cells[cols.is_empty as int], "player_housing.is_empty")),
                            failed(u8_in(cells[cols.region_index as int], "player_housing.region_index")),
                        ),
                    ),
                ),
            ),
        )
    }
}

/// Reads a row of `player_housing_state`.
pub fn decode_player_housing_with_fields(cells: &[Cell], cols: PlayerHousingCols) -> (r: Result<
    PlayerHousingRow,
    DecodeError,
>)
    requires
        cols.fit(cells@.len()),
    ensures
        match r {
            Ok(row) => row.reads(cells@, cols) && PlayerHousingRow::error(cells@, cols) is None,
            Err(e) => PlayerHousingRow::error(cells@, cols) == Some(e),
        },
{
    let entity_id: u64 = cell_u64(&cells[cols.entity_id], "player_housing.entity_id")?;
    let entrance_building_entity_id: u64 =
        cell_u64(&cells[cols.entrance_building_entity_id], "player_housing.entrance_building_entity_id")?;
    let network_entity_id: u64 = cell_u64(&cells[cols.network_entity_id], "player_housing.network_entity_id")?;
    let rank: i32 = cell_i32(&cells[cols.rank], "player_housing.rank")?;
    let is_empty: bool = cell_bool(&cells[cols.is_empty], "player_housing.is_empty")?;
    let region_index: u8 = cell_u8(&cells[cols.region_index], "player_housing.region_index")?;
    Ok(
        PlayerHousingRow {
            entity_id,
            entrance_building_entity_id,
            network_entity_id,
            rank,
            is_empty,
            region_index,
        },
    )
}

/// A row of `player_housing_desc`.
#[derive(Debug, Clone, PartialEq, Eq)]
pub struct PlayerHousingDescRow {
    pub secondary_knowledge_id: i32,
    pub rank: i32,
    pub name: String,
}

impl PlayerHousingDescRow {
    /// What the cells of a row say.
    pub open spec fn reads(self, cells: Seq<Cell>, cols: PlayerHousingDescCols) -> bool {
        &&& i32_in(cells[cols.secondary_knowledge_id as int], "player_housing_desc.secondary_knowledge_id")
            == Ok::<i32, DecodeError>(self.secondary_knowledge_id)
        &&& i32_in(cells[cols.rank as int], "player_housing_desc.rank") == Ok::<i32, DecodeError>(self.rank)
        &&& text_in(cells[cols.name as int], "player_housing_desc.name") == Ok::<Seq<char>, DecodeError>(self.name@)
    }

    /// The first cell that cannot be read, as an error.
    pub open spec fn error(cells: Seq<Cell>, cols: PlayerHousingDescCols) -> Option<DecodeError> {
        either(
            failed(i32_in(cells[cols.secondary_knowledge_id as int], "player_housing_desc.secondary_knowledge_id")),
            either(
                failed(i32_in(cells[cols.rank as int], "player_housing_desc.rank")),
                failed(text_in(cells[cols.name as int], "player_housing_desc.name")),
            ),
        )
    }
}

/// Reads a row of `player_housing_desc`.
pub fn decode_player_housing_desc_with_fields(cells: &[Cell], cols: PlayerHousingDescCols) -> (r: Result<
    PlayerHousingDescRow,
    DecodeError,
>)
    requires
        cols.fit(cells@.len()),
    ensures
        match r {
            Ok(row) => row.reads(cells@, cols) && PlayerHousingDescRow::error(cells@, cols) is None,
            Err(e) => PlayerHousingDescRow::error(cells@, cols) == Some(e),
        },
{
    let secondary_knowledge_id: i32 =
        cell_i32(&cells[cols.secondary_knowledge_id], "player_housing_desc.secondary_knowledge_id")?;
    let rank: i32 = cell_i32(&cells[cols.rank], "player_housing_desc.rank")?;
    let name: String = cell_string(&cells[cols.name], "player_housing_desc.name")?;
    Ok(
        PlayerHousingDescRow {
            secondary_knowledge_id,
            rank,
            name,
        },
    )
}

/// A row of `rent_state`.
#[derive(Debug, Clone, PartialEq, Eq)]
pub struct RentRow {
    pub entity_id: u64,
    pub dimension_network_id: u64,
    pub claim_entity_id: u64,
    pub white_list: Vec<u64>,
    pub active: bool,
}

impl RentRow {
    /// What the cells of a row say.
    pub open spec fn reads(self, cells: Seq<Cell>, cols: RentCols) -> bool {
        &&& u64_in(cells[cols.entity_id as int], "rent.entity_id") == Ok::<u64, DecodeError>(self.entity_id)
        &&& u64_in(cells[cols.dimension_network_id as int], "rent.dimension_network_id")
            == Ok::<u64, DecodeError>(self.dimension_network_id)
        &&& u64_in(cells[cols.claim_entity_id as int], "rent.claim_entity_id")
            == Ok::<u64, DecodeError>(self.claim_entity_id)
        &&& u64s_in(cells[cols.white_list as int], "rent.white_list") == Ok::<Seq<u64>, DecodeError>(self.white_list@)
        &&& bool_in(cells[cols.active as int], "rent.active") == Ok::<bool, DecodeError>(self.active)
    }

    /// The first cell that cannot be read, as an error.
    pub open spec fn error(cells: Seq<Cell>, cols: RentCols) -> Option<DecodeError> {
        either(
            failed(u64_in(cells[cols.entity_id as int], "rent.entity_id")),
            either(
                failed(u64_in(cells[cols.dimension_network_id as int], "rent.dimension_network_id")),
                either(
                    failed(u64_in(cells[cols.claim_entity_id as int], "rent.claim_entity_id")),
                    either(
                        failed(u64s_in(cells[cols.white_list as int], "rent.white_list")),
                        failed(bool_in(cells[cols.active as int], "rent.active")),
                    ),
                ),
            ),
        )
    }
}

/// Reads a row of `rent_state`.
pub fn decode_rent_with_fields(cells: &[Cell], cols: RentCols) -> (r: Result<RentRow, DecodeError>)
    requires
        cols.fit(cells@.len()),
    ensures
        match r {
            Ok(row) => row.reads(cells@, cols) && RentRow::error(cells@, cols) is None,
            Err(e) => RentRow::error(cells@, cols) == Some(e),
        },
{
    let entity_id: u64 = cell_u64(&cells[cols.entity_id], "rent.entity_id")?;
    let dimension_network_id: u64 = cell_u64(&cells[cols.dimension_network_id], "rent.dimension_network_id")?;
    let claim_entity_id: u64 = cell_u64(&cells[cols.claim_entity_id], "rent.claim_entity_id")?;
    let white_list: Vec<u64> = decode_u64_array(&cells[cols.white_list], "rent.white_list")?;
    let active: bool = cell_bool(&cells[cols.active], "rent.active")?;
    Ok(
        RentRow {
            entity_id,
            dimension_network_id,
            claim_entity_id,
            white_list,
            active,
        },
    )
}

/// A row of `claim_local_state`.
#[derive(Debug, Clone, PartialEq, Eq)]
pub struct ClaimLocalRow {
    pub entity_id: u64,
    pub supplies: i32,
    pub building_maintenance: Single,
    pub num_tiles: i32,
    pub treasury: u32,
    pub supplies_purchase_threshold: u32,
    pub supplies_purchase_price: Single,
    pub location_x: i32,
    pub location_z: i32,
    pub location_dimension: u32,
    pub has_location: bool,
}

impl ClaimLocalRow {
    /// What the cells of a row say.
    pub open spec fn reads(self, cells: Seq<Cell>, cols: ClaimLocalCols) -> bool {
        &&& location_in(cells[cols.location as int])
            == Ok::<(bool, i32, i32, u32), DecodeError>((self.has_location, self.location_x, self.location_z, self.location_dimension))
        &&& u64_in(cells[cols.entity_id as int], "claim_local.entity_id") == Ok::<u64, DecodeError>(self.entity_id)
        &&& i32_in(cells[cols.supplies as int], "claim_local.supplies") == Ok::<i32, DecodeError>(self.supplies)
        &&& single_in(cells[cols.building_maintenance as int], "claim_local.building_maintenance")
            == Ok::<Single, DecodeError>(self.building_maintenance)
        &&& i32_in(cells[cols.num_tiles as int], "claim_local.num_tiles") == Ok::<i32, DecodeError>(self.num_tiles)
        &&& u32_in(cells[cols.treasury as int], "claim_local.treasury") == Ok::<u32, DecodeError>(self.treasury)
        &&& u32_in(cells[cols.supplies_purchase_threshold as int], "claim_local.supplies_purchase_threshold")
            == Ok::<u32, DecodeError>(self.supplies_purchase_threshold)
        &&& single_in(cells[cols.supplies_purchase_price as int], "claim_local.supplies_purchase_price")
            == Ok::<Single, DecodeError>(self.supplies_purchase_price)
    }

    /// The first cell that cannot be read, as an error.
    pub open spec fn error(cells: Seq<Cell>, cols: ClaimLocalCols) -> Option<DecodeError> {
        either(
            failed(location_in(cells[cols.location as int])),
            either(
                failed(u64_in(cells[cols.entity_id as int], "claim_local.entity_id")),
                either(
                    failed(i32_in(cells[cols.supplies as int], "claim_local.supplies")),
                    either(
                        failed(single_in(cells[cols.building_maintenance as int], "claim_local.building_maintenance")),
                        either(
                            failed(i32_in(cells[cols.num_tiles as int], "claim_local.num_tiles")),
                            either(
                                failed(u32_in(cells[cols.treasury as int], "claim_local.treasury")),
                                either(
                                    failed(u32_in(cells[cols.supplies_purchase_threshold as int], "claim_local.supplies_purchase_threshold")),
                                    failed(single_in(cells[cols.supplies_purchase_price as int], "claim_local.supplies_purchase_price")),
                                ),
                            ),
                        ),
                    ),
                ),
            ),
        )
    }
}

/// Reads a row of `claim_local_state`.
pub fn decode_claim_local_with_fields(cells: &[Cell], cols: ClaimLocalCols) -> (r: Result<ClaimLocalRow, DecodeError>)
    requires
        cols.fit(cells@.len()),
    ensures
        match r {
            Ok(row) => row.reads(cells@, cols) && ClaimLocalRow::error(cells@, cols) is None,
            Err(e) => ClaimLocalRow::error(cells@, cols) == Some(e),
        },
{
    let (has_location, location_x, location_z, location_dimension): (bool, i32, i32, u32) =
        decode_optional_location(&cells[cols.location])?;
    let entity_id: u64 = cell_u64(&cells[cols.entity_id], "claim_local.entity_id")?;
    let supplies: i32 = cell_i32(&cells[cols.supplies], "claim_local.supplies")?;
    let building_maintenance: Single = cell_f32(&cells[cols.building_maintenance], "claim_local.building_maintenance")?;
    let num_tiles: i32 = cell_i32(&cells[cols.num_tiles], "claim_local.num_tiles")?;
    let treasury: u32 = cell_u32(&cells[cols.treasury], "claim_local.treasury")?;
    let supplies_purchase_threshold: u32 =
        cell_u32(&cells[cols.supplies_purchase_threshold], "claim_local.supplies_purchase_threshold")?;
    let supplies_purchase_price: Single =
        cell_f32(&cells[cols.supplies_purchase_price], "claim_local.supplies_purchase_price")?;
    Ok(
        ClaimLocalRow {
            entity_id,
            supplies,
            building_maintenance,
            num_tiles,
            treasury,
            supplies_purchase_threshold,
            supplies_purchase_price,
            location_x,
            location_z,
            location_dimension,
            has_location,
        },
    )
}

/// A row of `claim_member_state`.
#[derive(Debug, Clone, PartialEq, Eq)]
pub struct ClaimMemberRow {
    pub entity_id: u64,
    pub claim_entity_id: u64,
    pub player_entity_id: u64,
    pub user_name: String,
    pub inventory_permission: bool,
    pub build_permission: bool,
    pub officer_permission: bool,
    pub co_owner_permission: bool,
}

impl ClaimMemberRow {
    /// What the cells of a row say.
    pub open spec fn reads(self, cells: Seq<Cell>, cols: ClaimMemberCols) -> bool {
        &&& u64_in(cells[cols.entity_id as int], "claim_member.entity_id") == Ok::<u64, DecodeError>(self.entity_id)
        &&& u64_in(cells[cols.claim_entity_id as int], "claim_member.claim_entity_id")
            == Ok::<u64, DecodeError>(self.claim_entity_id)
        &&& u64_in(cells[cols.player_entity_id as int], "claim_member.player_entity_id")
            == Ok::<u64, DecodeError>(self.player_entity_id)
        &&& text_in(cells[cols.user_name as int], "claim_member.user_name")
            == Ok::<Seq<char>, DecodeError>(self.user_name@)
        &&& bool_in(cells[cols.inventory_permission as int], "claim_member.inventory_permission")
            == Ok::<bool, DecodeError>(self.inventory_permission)
        &&& bool_in(cells[cols.build_permission as int], "claim_member.build_permission")
            == Ok::<bool, DecodeError>(self.build_permission)
        &&& bool_in(cells[cols.officer_permission as int], "claim_member.officer_permission")
            == Ok::<bool, DecodeError>(self.officer_permission)
        &&& bool_in(cells[cols.co_owner_permission as int], "claim_member.co_owner_permission")
            == Ok::<bool, DecodeError>(self.co_owner_permission)
    }

    /// The first cell that cannot be read, as an error.
    pub open spec fn error(cells: Seq<Cell>, cols: ClaimMemberCols) -> Option<DecodeError> {
        either(
            failed(u64_in(cells[cols.entity_id as int], "claim_member.entity_id")),
            either(
                failed(u64_in(cells[cols.claim_entity_id as int], "claim_member.claim_entity_id")),
                either(
                    failed(u64_in(cells[cols.player_entity_id as int], "claim_member.player_entity_id")),
                    either(
                        failed(text_in(cells[cols.user_name as int], "claim_member.user_name")),
                        either(
                            failed(bool_in(cells[cols.inventory_permission as int], "claim_member.inventory_permission")),
                            either(
                                failed(bool_in(cells[cols.build_permission as int], "claim_member.build_permission")),
                                either(
                                    failed(bool_in(cells[cols.officer_permission as int], "claim_member.officer_permission")),
                                    failed(bool_in(cells[cols.co_owner_permission as int], "claim_member.co_owner_permission")),
                                ),
                            ),
                        ),
                    ),
                ),
            ),
        )
    }
}

/// Reads a row of `claim_member_state`.
pub fn decode_claim_member_with_fields(cells: &[Cell], cols: ClaimMemberCols) -> (r: Result<
    ClaimMemberRow,
    DecodeError,
>)
    requires
        cols.fit(cells@.len()),
    ensures
        match r {
            Ok(row) => row.reads(cells@, cols) && ClaimMemberRow::error(cells@, cols) is None,
            Err(e) => ClaimMemberRow::error(cells@, cols) == Some(e),
        },
{
    let entity_id: u64 = cell_u64(&cells[cols.entity_id], "claim_member.entity_id")?;
    let claim_entity_id: u64 = cell_u64(&cells[cols.claim_entity_id], "claim_member.claim_entity_id")?;
    let player_entity_id: u64 = cell_u64(&cells[cols.player_entity_id], "claim_member.player_entity_id")?;
    let user_name: String = cell_string(&cells[cols.user_name], "claim_member.user_name")?;
    let inventory_permission: bool = cell_bool(&cells[cols.inventory_permission], "claim_member.inventory_permission")?;
    let build_permission: bool = cell_bool(&cells[cols.build_permission], "claim_member.build_permission")?;
    let officer_permission: bool = cell_bool(&cells[cols.officer_permission], "claim_member.officer_permission")?;
    let co_owner_permission: bool = cell_bool(&cells[cols.co_owner_permission], "claim_member.co_owner_permission")?;
    Ok(
        ClaimMemberRow {
            entity_id,
            claim_entity_id,
            player_entity_id,
            user_name,
            inventory_permission,
            build_permission,
            officer_permission,
            co_owner_permission,
        },
    )
}

/// A row of `claim_tech_state`.
#[derive(Debug, Clone, PartialEq, Eq)]
pub struct ClaimTechStateRow {
    pub entity_id: u64,
    pub learned: Vec<i32>,
    pub researching: i32,
    pub start_timestamp_micros: i64,
}

impl ClaimTechStateRow {
    /// What the cells of a row say.
    pub open spec fn reads(self, cells: Seq<Cell>, cols: ClaimTechStateCols) -> bool {
        &&& u64_in(cells[cols.entity_id as int], "claim_tech_state.entity_id") == Ok::<u64, DecodeError>(self.entity_id)
        &&& i32s_in(cells[cols.learned as int], "claim_tech_state.learned")
            == Ok::<Seq<i32>, DecodeError>(self.learned@)
        &&& i32_in(cells[cols.researching as int], "claim_tech_state.researching")
            == Ok::<i32, DecodeError>(self.researching)
        &&& timestamp_in(cells[cols.start_timestamp as int], "claim_tech_state.start_timestamp")
            == Ok::<i64, DecodeError>(self.start_timestamp_micros)
    }

    /// The first cell that cannot be read, as an error.
    pub open spec fn error(cells: Seq<Cell>, cols: ClaimTechStateCols) -> Option<DecodeError> {
        either(
            failed(u64_in(cells[cols.entity_id as int], "claim_tech_state.entity_id")),
            either(
                failed(i32s_in(cells[cols.learned as int], "claim_tech_state.learned")),
                either(
                    failed(i32_in(cells[cols.researching as int], "claim_tech_state.researching")),
                    failed(timestamp_in(cells[cols.start_timestamp as int], "claim_tech_state.start_timestamp")),
                ),
            ),
        )
    }
}

/// Reads a row of `claim_tech_state`.
pub fn decode_claim_tech_state_with_fields(cells: &[Cell], cols: ClaimTechStateCols) -> (r: Result<
    ClaimTechStateRow,
    DecodeError,
>)
    requires
        cols.fit(cells@.len()),
    ensures
        match r {
            Ok(row) => row.reads(cells@, cols) && ClaimTechStateRow::error(cells@, cols) is None,
            Err(e) => ClaimTechStateRow::error(cells@, cols) == Some(e),
        },
{
    let entity_id: u64 = cell_u64(&cells[cols.entity_id], "claim_tech_state.entity_id")?;
    let learned: Vec<i32> = decode_i32_array(&cells[cols.learned], "claim_tech_state.learned")?;
    let researching: i32 = cell_i32(&cells[cols.researching], "claim_tech_state.researching")?;
    let start_timestamp_micros: i64 =
        decode_timestamp_micros(&cells[cols.start_timestamp], "claim_tech_state.start_timestamp")?;
    Ok(
        ClaimTechStateRow {
            entity_id,
            learned,
            researching,
            start_timestamp_micros,
        },
    )
}

/// A row of `claim_tech_desc`.
#[derive(Debug, Clone, PartialEq, Eq)]
pub struct ClaimTechDescRow {
    pub id: i32,
    pub name: String,
    pub description: String,
    pub tier: i32,
    pub tech_type: String,
    pub supplies_cost: i32,
    pub research_time: i32,
    pub requirements: Vec<i32>,
    pub members: i32,
    pub area: i32,
    pub unlocks_techs: Vec<i32>,
}

impl ClaimTechDescRow {
    /// What the cells of a row say.
    pub open spec fn reads(self, cells: Seq<Cell>, cols: ClaimTechDescCols) -> bool {
        &&& i32_in(cells[cols.id as int], "claim_tech_desc.id") == Ok::<i32, DecodeError>(self.id)
        &&& text_in(cells[cols.name as int], "claim_tech_desc.name") == Ok::<Seq<char>, DecodeError>(self.name@)
        &&& text_in(cells[cols.description as int], "claim_tech_desc.description")
            == Ok::<Seq<char>, DecodeError>(self.description@)
        &&& i32_in(cells[cols.tier as int], "claim_tech_desc.tier") == Ok::<i32, DecodeError>(self.tier)
        &&& snake_variant_in(cells[cols.tech_type as int], "claim_tech_desc.tech_type")
            == Ok::<Seq<char>, DecodeError>(self.tech_type@)
        &&& i32_in(cells[cols.supplies_cost as int], "claim_tech_desc.supplies_cost")
            == Ok::<i32, DecodeError>(self.supplies_cost)
        &&& i32_in(cells[cols.research_time as int], "claim_tech_desc.research_time")
            == Ok::<i32, DecodeError>(self.research_time)
        &&& i32s_in(cells[cols.requirements as int], "claim_tech_desc.requirements")
            == Ok::<Seq<i32>, DecodeError>(self.requirements@)
        &&& i32_in(cells[cols.members as int], "claim_tech_desc.members") == Ok::<i32, DecodeError>(self.members)
        &&& i32_in(cells[cols.area as int], "claim_tech_desc.area") == Ok::<i32, DecodeError>(self.area)
        &&& i32s_in(cells[cols.unlocks_techs as int], "claim_tech_desc.unlocks_techs")
            == Ok::<Seq<i32>, DecodeError>(self.unlocks_techs@)
    }

    /// The first cell that cannot be read, as an error.
    pub open spec fn error(cells: Seq<Cell>, cols: ClaimTechDescCols) -> Option<DecodeError> {
        either(
            failed(i32_in(cells[cols.id as int], "claim_tech_desc.id")),
            either(
                failed(text_in(cells[cols.name as int], "claim_tech_desc.name")),
                either(
                    failed(text_in(cells[cols.description as int], "claim_tech_desc.description")),
                    either(
                        failed(i32_in(cells[cols.tier as int], "claim_tech_desc.tier")),
                        either(
                            failed(snake_variant_in(cells[cols.tech_type as int], "claim_tech_desc.tech_type")),
                            either(
                                failed(i32_in(cells[cols.supplies_cost as int], "claim_tech_desc.supplies_cost")),
                                either(
                                    failed(i32_in(cells[cols.research_time as int], "claim_tech_desc.research_time")),
                                    either(
                                        failed(i32s_in(cells[cols.requirements as int], "claim_tech_desc.requirements")),
                                        either(
                                            failed(i32_in(cells[cols.members as int], "claim_tech_desc.members")),
                                            either(
                                                failed(i32_in(cells[cols.area as int], "claim_tech_desc.area")),
                                                failed(i32s_in(cells[cols.unlocks_techs as int], "claim_tech_desc.unlocks_techs")),
                                            ),
                                        ),
                                    ),
                                ),
                            ),
                        ),
                    ),
                ),
            ),
        )
    }
}

/// Reads a row of `claim_tech_desc`.
pub fn decode_claim_tech_desc_with_fields(cells: &[Cell], cols: ClaimTechDescCols) -> (r: Result<
    ClaimTechDescRow,
    DecodeError,
>)
    requires
        cols.fit(cells@.len()),
    ensures
        match r {
            Ok(row) => row.reads(cells@, cols) && ClaimTechDescRow::error(cells@, cols) is None,
            Err(e) => ClaimTechDescRow::error(cells@, cols) == Some(e),
        },
{
    let id: i32 = cell_i32(&cells[cols.id], "claim_tech_desc.id")?;
    let name: String = cell_string(&cells[cols.name], "claim_tech_desc.name")?;
    let description: String = cell_string(&cells[cols.description], "claim_tech_desc.description")?;
    let tier: i32 = cell_i32(&cells[cols.tier], "claim_tech_desc.tier")?;
    let tech_type: String = sum_variant_snake(&cells[cols.tech_type], "claim_tech_desc.tech_type")?;
    let supplies_cost: i32 = cell_i32(&cells[cols.supplies_cost], "claim_tech_desc.supplies_cost")?;
    let research_time: i32 = cell_i32(&cells[cols.research_time], "claim_tech_desc.research_time")?;
    let requirements: Vec<i32> = decode_i32_array(&cells[cols.requirements], "claim_tech_desc.requirements")?;
    let members: i32 = cell_i32(&cells[cols.members], "claim_tech_desc.members")?;
    let area: i32 = cell_i32(&cells[cols.area], "claim_tech_desc.area")?;
    let unlocks_techs: Vec<i32> = decode_i32_array(&cells[cols.unlocks_techs], "claim_tech_desc.unlocks_techs")?;
    Ok(
        ClaimTechDescRow {
            id,
            name,
            description,
            tier,
            tech_type,
            supplies_cost,
            research_time,
            requirements,
            members,
            area,
            unlocks_techs,
        },
    )
}

/// A row of `claim_tile_cost`.
#[derive(Debug, Clone, PartialEq, Eq)]
pub struct ClaimTileCostRow {
    pub tile_count: i32,
    pub cost_per_tile: Single,
}

impl ClaimTileCostRow {
    /// What the cells of a row say.
    pub open spec fn reads(self, cells: Seq<Cell>, cols: ClaimTileCostCols) -> bool {
        &&& i32_in(cells[cols.tile_count as int], "claim_tile_cost.tile_count")
            == Ok::<i32, DecodeError>(self.tile_count)
        &&& single_in(cells[cols.cost_per_tile as int], "claim_tile_cost.cost_per_tile")
            == Ok::<Single, DecodeError>(self.cost_per_tile)
    }

    /// The first cell that cannot be read, as an error.
    pub open spec fn error(cells: Seq<Cell>, cols: ClaimTileCostCols) -> Option<DecodeError> {
        either(
            failed(i32_in(cells[cols.tile_count as int], "claim_tile_cost.tile_count")),
            failed(single_in(cells[cols.cost_per_tile as int], "claim_tile_cost.cost_per_tile")),
        )
    }
}

/// Reads a row of `claim_tile_cost`.
pub fn decode_claim_tile_cost_with_fields(cells: &[Cell], cols: ClaimTileCostCols) -> (r: Result<
    ClaimTileCostRow,
    DecodeError,
>)
    requires
        cols.fit(cells@.len()),
    ensures
        match r {
            Ok(row) => row.reads(cells@, cols) && ClaimTileCostRow::error(cells@, cols) is None,
            Err(e) => ClaimTileCostRow::error(cells@, cols) == Some(e),
        },
{
    let tile_count: i32 = cell_i32(&cells[cols.tile_count], "claim_tile_cost.tile_count")?;
    let cost_per_tile: Single = cell_f32(&cells[cols.cost_per_tile], "claim_tile_cost.cost_per_tile")?;
    Ok(
        ClaimTileCostRow {
            tile_count,
            cost_per_tile,
        },
    )
}

/// A row of `experience_state`.
#[derive(Debug, Clone, PartialEq, Eq)]
pub struct ExperienceRow {
    pub entity_id: u64,
    /// `(skill_id, xp quantity)` stacks.
    pub stacks: Vec<(i32, i32)>,
}

impl ExperienceRow {
    /// What the cells of a row say.
    pub open spec fn reads(self, cells: Seq<Cell>, cols: ExperienceCols) -> bool {
        &&& u64_in(cells[cols.entity_id as int], "experience.entity_id") == Ok::<u64, DecodeError>(self.entity_id)
        &&& experiences_in(cells[cols.experience_stacks as int]) == Ok::<Seq<(i32, i32)>, DecodeError>(self.stacks@)
    }

    /// The first cell that cannot be read, as an error.
    pub open spec fn error(cells: Seq<Cell>, cols: ExperienceCols) -> Option<DecodeError> {
        either(
            failed(u64_in(cells[cols.entity_id as int], "experience.entity_id")),
            failed(experiences_in(cells[cols.experience_stacks as int])),
        )
    }
}

/// Reads a row of `experience_state`.
pub fn decode_experience_with_fields(cells: &[Cell], cols: ExperienceCols) -> (r: Result<ExperienceRow, DecodeError>)
    requires
        cols.fit(cells@.len()),
    ensures
        match r {
            Ok(row) => row.reads(cells@, cols) && ExperienceRow::error(cells@, cols) is None,
            Err(e) => ExperienceRow::error(cells@, cols) == Some(e),
        },
{
    let entity_id: u64 = cell_u64(&cells[cols.entity_id], "experience.entity_id")?;
    let stacks: Vec<(i32, i32)> = decode_experience_stacks(&cells[cols.experience_stacks])?;
    Ok(
        ExperienceRow {
            entity_id,
            stacks,
        },
    )
}

/// A row of `skill_desc`.
#[derive(Debug, Clone, PartialEq, Eq)]
pub struct SkillDescRow {
    pub id: i32,
    pub name: String,
    pub title: String,
    pub max_level: i32,
}

impl SkillDescRow {
    /// What the cells of a row say.
    pub open spec fn reads(self, cells: Seq<Cell>, cols: SkillDescCols) -> bool {
        &&& i32_in(cells[cols.id as int], "skill_desc.id") == Ok::<i32, DecodeError>(self.id)
        &&& text_in(cells[cols.name as int], "skill_desc.name") == Ok::<Seq<char>, DecodeError>(self.name@)
        &&& text_in(cells[cols.title as int], "skill_desc.title") == Ok::<Seq<char>, DecodeError>(self.title@)
        &&& i32_in(cells[cols.max_level as int], "skill_desc.max_level") == Ok::<i32, DecodeError>(self.max_level)
    }

    /// The first cell that cannot be read, as an error.
    pub open spec fn error(cells: Seq<Cell>, cols: SkillDescCols) -> Option<DecodeError> {
        either(
            failed(i32_in(cells[cols.id as int], "skill_desc.id")),
            either(
                failed(text_in(cells[cols.name as int], "skill_desc.name")),
                either(
                    failed(text_in(cells[cols.title as int], "skill_desc.title")),
                    failed(i32_in(cells[cols.max_level as int], "skill_desc.max_level")),
                ),
            ),
        )
    }
}

/// Reads a row of `skill_desc`.
pub fn decode_skill_desc_with_fields(cells: &[Cell], cols: SkillDescCols) -> (r: Result<SkillDescRow, DecodeError>)
    requires
        cols.fit(cells@.len()),
    ensures
        match r {
            Ok(row) => row.reads(cells@, cols) && SkillDescRow::error(cells@, cols) is None,
            Err(e) => SkillDescRow::error(cells@, cols) == Some(e),
        },
{
    let id: i32 = cell_i32(&cells[cols.id], "skill_desc.id")?;
    let name: String = cell_string(&cells[cols.name], "skill_desc.name")?;
    let title: String = cell_string(&cells[cols.title], "skill_desc.title")?;
    let max_level: i32 = cell_i32(&cells[cols.max_level], "skill_desc.max_level")?;
    Ok(
        SkillDescRow {
            id,
            name,
            title,
            max_level,
        },
    )
}

/// A row of `progressive_action_state`.
#[derive(Debug, Clone, PartialEq, Eq)]
pub struct ProgressiveActionRow {
    pub entity_id: u64,
    pub building_entity_id: u64,
    pub progress: i32,
    pub recipe_id: i32,
    pub craft_count: i32,
    pub owner_entity_id: u64,
}

impl ProgressiveActionRow {
    /// What the cells of a row say.
    pub open spec fn reads(self, cells: Seq<Cell>, cols: ProgressiveActionCols) -> bool {
        &&& u64_in(cells[cols.entity_id as int], "progressive_action.entity_id")
            == Ok::<u64, DecodeError>(self.entity_id)
        &&& u64_in(cells[cols.building_entity_id as int], "progressive_action.building_entity_id")
            == Ok::<u64, DecodeError>(self.building_entity_id)
        &&& i32_in(cells[cols.progress as int], "progressive_action.progress") == Ok::<i32, DecodeError>(self.progress)
        &&& i32_in(cells[cols.recipe_id as int], "progressive_action.recipe_id")
            == Ok::<i32, DecodeError>(self.recipe_id)
        &&& i32_in(cells[cols.craft_count as int], "progressive_action.craft_count")
            == Ok::<i32, DecodeError>(self.craft_count)
        &&& u64_in(cells[cols.owner_entity_id as int], "progressive_action.owner_entity_id")
            == Ok::<u64, DecodeError>(self.owner_entity_id)
    }

    /// The first cell that cannot be read, as an error.
    pub open spec fn error(cells: Seq<Cell>, cols: ProgressiveActionCols) -> Option<DecodeError> {
        either(
            failed(u64_in(cells[cols.entity_id as int], "progressive_action.entity_id")),
            either(
                failed(u64_in(cells[cols.building_entity_id as int], "progressive_action.building_entity_id")),
                either(
                    failed(i32_in(cells[cols.progress as int], "progressive_action.progress")),
                    either(
                        failed(i32_in(cells[cols.recipe_id as int], "progressive_action.recipe_id")),
                        either(
                            failed(i32_in(cells[cols.craft_count as int], "progressive_action.craft_count")),
                            failed(u64_in(cells[cols.owner_entity_id as int], "progressive_action.owner_entity_id")),
                        ),
                    ),
                ),
            ),
        )
    }
}

/// Reads a row of `progressive_action_state`.
pub fn decode_progressive_action_with_fields(cells: &[Cell], cols: ProgressiveActionCols) -> (r: Result<
    ProgressiveActionRow,
    DecodeError,
>)
    requires
        cols.fit(cells@.len()),
    ensures
        match r {
            Ok(row) => row.reads(cells@, cols) && ProgressiveActionRow::error(cells@, cols) is None,
            Err(e) => ProgressiveActionRow::error(cells@, cols) == Some(e),
        },
{
    let entity_id: u64 = cell_u64(&cells[cols.entity_id], "progressive_action.entity_id")?;
    let building_entity_id: u64 = cell_u64(&cells[cols.building_entity_id], "progressive_action.building_entity_id")?;
    let progress: i32 = cell_i32(&cells[cols.progress], "progressive_action.progress")?;
    let recipe_id: i32 = cell_i32(&cells[cols.recipe_id], "progressive_action.recipe_id")?;
    let craft_count: i32 = cell_i32(&cells[cols.craft_count], "progressive_action.craft_count")?;
    let owner_entity_id: u64 = cell_u64(&cells[cols.owner_entity_id], "progressive_action.owner_entity_id")?;
    Ok(
        ProgressiveActionRow {
            entity_id,
            building_entity_id,
            progress,
            recipe_id,
            craft_count,
            owner_entity_id,
        },
    )
}

/// A row of `public_progressive_action_state`.
#[derive(Debug, Clone, PartialEq, Eq)]
pub struct PublicProgressiveActionRow {
    pub entity_id: u64,
    pub building_entity_id: u64,
    pub owner_entity_id: u64,
}

impl PublicProgressiveActionRow {
    /// What the cells of a row say.
    pub open spec fn reads(self, cells: Seq<Cell>, cols: PublicProgressiveActionCols) -> bool {
        &&& u64_in(cells[cols.entity_id as int], "public_progressive_action.entity_id")
            == Ok::<u64, DecodeError>(self.entity_id)
        &&& u64_in(cells[cols.building_entity_id as int], "public_progressive_action.building_entity_id")
            == Ok::<u64, DecodeError>(self.building_entity_id)
        &&& u64_in(cells[cols.owner_entity_id as int], "public_progressive_action.owner_entity_id")
            == Ok::<u64, DecodeError>(self.owner_entity_id)
    }

    /// The first cell that cannot be read, as an error.
    pub open spec fn error(cells: Seq<Cell>, cols: PublicProgressiveActionCols) -> Option<DecodeError> {
        either(
            failed(u64_in(cells[cols.entity_id as int], "public_progressive_action.entity_id")),
            either(
                failed(u64_in(cells[cols.building_entity_id as int], "public_progressive_action.building_entity_id")),
                failed(u64_in(cells[cols.owner_entity_id as int], "public_progressive_action.owner_entity_id")),
            ),
        )
    }
}

/// Reads a row of `public_progressive_action_state`.
pub fn decode_public_progressive_action_with_fields(cells: &[Cell], cols: PublicProgressiveActionCols) -> (r: Result<
    PublicProgressiveActionRow,
    DecodeError,
>)
    requires
        cols.fit(cells@.len()),
    ensures
        match r {
            Ok(row) => row.reads(cells@, cols) && PublicProgressiveActionRow::error(cells@, cols) is None,
            Err(e) => PublicProgressiveActionRow::error(cells@, cols) == Some(e),
        },
{
    let entity_id: u64 = cell_u64(&cells[cols.entity_id], "public_progressive_action.entity_id")?;
    let building_entity_id: u64 =
        cell_u64(&cells[cols.building_entity_id], "public_progressive_action.building_entity_id")?;
    let owner_entity_id: u64 = cell_u64(&cells[cols.owner_entity_id], "public_progressive_action.owner_entity_id")?;
    Ok(
        PublicProgressiveActionRow {
            entity_id,
            building_entity_id,
            owner_entity_id,
        },
    )
}

/// A row of `passive_craft_state`.
#[derive(Debug, Clone, PartialEq, Eq)]
pub struct PassiveCraftRow {
    pub entity_id: u64,
    pub owner_entity_id: u64,
    pub recipe_id: i32,
    pub building_entity_id: u64,
    pub status: PassiveCraftStatus,
}

impl PassiveCraftRow {
    /// What the cells of a row say.
    pub open spec fn reads(self, cells: Seq<Cell>, cols: PassiveCraftCols) -> bool {
        &&& u64_in(cells[cols.entity_id as int], "passive_craft.entity_id") == Ok::<u64, DecodeError>(self.entity_id)
        &&& u64_in(cells[cols.owner_entity_id as int], "passive_craft.owner_entity_id")
            == Ok::<u64, DecodeError>(self.owner_entity_id)
        &&& i32_in(cells[cols.recipe_id as int], "passive_craft.recipe_id") == Ok::<i32, DecodeError>(self.recipe_id)
        &&& u64_in(cells[cols.building_entity_id as int], "passive_craft.building_entity_id")
            == Ok::<u64, DecodeError>(self.building_entity_id)
        &&& craft_status_in(cells[cols.status as int]) == Ok::<PassiveCraftStatus, DecodeError>(self.status)
    }

    /// The first cell that cannot be read, as an error.
    pub open spec fn error(cells: Seq<Cell>, cols: PassiveCraftCols) -> Option<DecodeError> {
        either(
            failed(u64_in(cells[cols.entity_id as int], "passive_craft.entity_id")),
            either(
                failed(u64_in(cells[cols.owner_entity_id as int], "passive_craft.owner_entity_id")),
                either(
                    failed(i32_in(cells[cols.recipe_id as int], "passive_craft.recipe_id")),
                    either(
                        failed(u64_in(cells[cols.building_entity_id as int], "passive_craft.building_entity_id")),
                        failed(craft_status_in(cells[cols.status as int])),
                    ),
                ),
            ),
        )
    }
}

/// Reads a row of `passive_craft_state`.
pub fn decode_passive_craft_with_fields(cells: &[Cell], cols: PassiveCraftCols) -> (r: Result<
    PassiveCraftRow,
    DecodeError,
>)
    requires
        cols.fit(cells@.len()),
    ensures
        match r {
            Ok(row) => row.reads(cells@, cols) && PassiveCraftRow::error(cells@, cols) is None,
            Err(e) => PassiveCraftRow::error(cells@, cols) == Some(e),
        },
{
    let entity_id: u64 = cell_u64(&cells[cols.entity_id], "passive_craft.entity_id")?;
    let owner_entity_id: u64 = cell_u64(&cells[cols.owner_entity_id], "passive_craft.owner_entity_id")?;
    let recipe_id: i32 = cell_i32(&cells[cols.recipe_id], "passive_craft.recipe_id")?;
    let building_entity_id: u64 = cell_u64(&cells[cols.building_entity_id], "passive_craft.building_entity_id")?;
    let status: PassiveCraftStatus = decode_passive_craft_status(&cells[cols.status])?;
    Ok(
        PassiveCraftRow {
            entity_id,
            owner_entity_id,
            recipe_id,
            building_entity_id,
            status,
        },
    )
}

/// A row of `crafting_recipe_desc`.
#[derive(Debug, Clone, PartialEq, Eq)]
pub struct CraftingRecipeDescRow {
    pub id: i32,
    pub actions_required: i32,
    pub crafted_item: Vec<CraftedItemStack>,
}

impl CraftingRecipeDescRow {
    /// What the cells of a row say.
    pub open spec fn reads(self, cells: Seq<Cell>, cols: CraftingRecipeDescCols) -> bool {
        &&& i32_in(cells[cols.id as int], "crafting_recipe_desc.id") == Ok::<i32, DecodeError>(self.id)
        &&& i32_in(cells[cols.actions_required as int], "crafting_recipe_desc.actions_required")
            == Ok::<i32, DecodeError>(self.actions_required)
        &&& crafted_in(cells[cols.crafted_item_stacks as int])
            == Ok::<Seq<CraftedItemStack>, DecodeError>(self.crafted_item@)
    }

    /// The first cell that cannot be read, as an error.
    pub open spec fn error(cells: Seq<Cell>, cols: CraftingRecipeDescCols) -> Option<DecodeError> {
        either(
            failed(i32_in(cells[cols.id as int], "crafting_recipe_desc.id")),
            either(
                failed(i32_in(cells[cols.actions_required as int], "crafting_recipe_desc.actions_required")),
                failed(crafted_in(cells[cols.crafted_item_stacks as int])),
            ),
        )
    }
}

/// Reads a row of `crafting_recipe_desc`.
pub fn decode_crafting_recipe_desc_with_fields(cells: &[Cell], cols: CraftingRecipeDescCols) -> (r: Result<
    CraftingRecipeDescRow,
    DecodeError,
>)
    requires
        cols.fit(cells@.len()),
    ensures
        match r {
            Ok(row) => row.reads(cells@, cols) && CraftingRecipeDescRow::error(cells@, cols) is None,
            Err(e) => CraftingRecipeDescRow::error(cells@, cols) == Some(e),
        },
{
    let id: i32 = cell_i32(&cells[cols.id], "crafting_recipe_desc.id")?;
    let actions_required: i32 = cell_i32(&cells[cols.actions_required], "crafting_recipe_desc.actions_required")?;
    let crafted_item: Vec<CraftedItemStack> = decode_crafted_item_stacks(&cells[cols.crafted_item_stacks])?;
    Ok(
        CraftingRecipeDescRow {
            id,
            actions_required,
            crafted_item,
        },
    )
}

/// Reads a row of `signed_in_player_state`: a player with a row is signed in.
pub fn decode_bitme_signed_in_player(cells: &[Cell], col: usize) -> (r: Result<u64, DecodeError>)
    requires
        col < cells@.len(),
    ensures
        r == u64_in(cells@[col as int], "signed_in_player.entity_id"),
{
    cell_u64(&cells[col], "signed_in_player.entity_id")
}

/// Where an entity is, by its dimension alone.
#[derive(Debug, Clone, PartialEq, Eq)]
pub struct LocationDimRow {
    pub entity_id: u64,
    pub dimension: u32,
}

/// Hexite deposit, as long as it can be harvested.
pub const HEXITE_DEPOSIT_RESOURCE_ID: i32 = 348497955;

/// Hexite deposit that grows back.
pub const DEPLETED_HEXITE_DEPOSIT_RESOURCE_ID: i32 = 854132798;

/// The wildcard of recipes: every player has it at zero, and it is no skill.
pub const SKILL_ID_ANY: i32 = 1;

/// The dimension of a building without a place inside another.
pub const OVERWORLD_DIMENSION: u32 = 1;

/// Whether a resource is a hexite deposit, depleted or not.
pub fn is_hexite_resource_id(resource_id: i32) -> (r: bool)
    ensures
        r <==> resource_id == HEXITE_DEPOSIT_RESOURCE_ID || resource_id == DEPLETED_HEXITE_DEPOSIT_RESOURCE_ID,
{
    resource_id == HEXITE_DEPOSIT_RESOURCE_ID || resource_id == DEPLETED_HEXITE_DEPOSIT_RESOURCE_ID
}

/// Whether a skill is a player's skill.
pub fn is_player_skill_id(skill_id: i32) -> (r: bool)
    ensures
        r <==> skill_id != SKILL_ID_ANY,
{
    skill_id != SKILL_ID_ANY
}

/// An identity as it is written: hexadecimal, most significant byte first.
pub fn identity_hex(le_bytes: [u8; 32]) -> (r: String)
    ensures
        r@ == hex_of(le_bytes@.reverse()),
{
    let mut be: Vec<u8> = Vec::new();
    let mut i: usize = 0;
    while i < 32
        invariant
            i <= 32,
            be@.len() == i,
            forall|j: int| 0 <= j < i ==> be@[j] == le_bytes@[31 - j],
        decreases 32 - i,
    {
        be.push(le_bytes[31 - i]);
        i += 1;
    }
    assert(be@ =~= le_bytes@.reverse());
    encode(be.as_slice())
}

} // verus!
