//! Columns of the mirrored tables.

use vstd::prelude::*;

use crate::schema::{
    columns, either, find_fields, find_fields_if_any, has_table, lacking, stands_at, DecodeError, MirroredSchema,
};

verus! {

pub const CLAIM_TABLE: &'static str = "claim_state";

pub const CLAIM_LOCAL_TABLE: &'static str = "claim_local_state";

pub const CLAIM_MEMBER_TABLE: &'static str = "claim_member_state";

pub const CLAIM_TECH_STATE_TABLE: &'static str = "claim_tech_state";

pub const CLAIM_TECH_DESC_TABLE: &'static str = "claim_tech_desc";

pub const CLAIM_TILE_COST_TABLE: &'static str = "claim_tile_cost";

pub const BUILDING_TABLE: &'static str = "building_state";

pub const INVENTORY_TABLE: &'static str = "inventory_state";

pub const BUILDING_DESC_TABLE: &'static str = "building_desc";

pub const BUILDING_NICKNAME_TABLE: &'static str = "building_nickname_state";

pub const LOCATION_TABLE: &'static str = "location_state";

pub const DIMENSION_NETWORK_TABLE: &'static str = "dimension_network_state";

pub const PLAYER_USERNAME_TABLE: &'static str = "player_username_state";

pub const PLAYER_STATE_TABLE: &'static str = "player_state";

pub const MOBILE_ENTITY_TABLE: &'static str = "mobile_entity_state";

pub const DEPLOYABLE_TABLE: &'static str = "deployable_state_v2";

pub const DEPLOYABLE_DESC_TABLE: &'static str = "deployable_desc";

pub const PLAYER_HOUSING_TABLE: &'static str = "player_housing_state";

pub const PLAYER_HOUSING_DESC_TABLE: &'static str = "player_housing_desc";

pub const RENT_TABLE: &'static str = "rent_state";

pub const EXPERIENCE_TABLE: &'static str = "experience_state";

pub const SKILL_DESC_TABLE: &'static str = "skill_desc";

pub const PROGRESSIVE_ACTION_TABLE: &'static str = "progressive_action_state";

pub const PUBLIC_PROGRESSIVE_ACTION_TABLE: &'static str = "public_progressive_action_state";

pub const PASSIVE_CRAFT_TABLE: &'static str = "passive_craft_state";

pub const CRAFTING_RECIPE_DESC_TABLE: &'static str = "crafting_recipe_desc";

pub const RESOURCE_TABLE: &'static str = "resource_state";

pub const GROWTH_TABLE: &'static str = "growth_state";

pub const RESOURCE_GROWTH_TIMER_TABLE: &'static str = "resource_growth_timer";

pub const STORAGE_LOG_TABLE: &'static str = "storage_log_state";

pub const STAMINA_TABLE: &'static str = "stamina_state";

pub const ACTIVE_BUFF_TABLE: &'static str = "active_buff_state";

pub const PLAYER_ACTION_TABLE: &'static str = "player_action_state";

pub const RESOURCE_HEALTH_TABLE: &'static str = "resource_health_state";

pub const RESOURCE_DESC_TABLE: &'static str = "resource_desc";

pub const EXTRACTION_RECIPE_TABLE: &'static str = "extraction_recipe_desc";

pub const CHARACTER_STAT_DESC_TABLE: &'static str = "character_stat_desc";

pub const CHARACTER_STATS_TABLE: &'static str = "character_stats_state";

pub const PLAYER_LOWERCASE_USERNAME_TABLE: &'static str = "player_lowercase_username_state";

pub const USER_STATE_TABLE: &'static str = "user_state";

pub const USER_REGION_STATE_TABLE: &'static str = "user_region_state";

pub const REGION_CONNECTION_INFO_TABLE: &'static str = "region_connection_info";

pub const WORLD_REGION_NAME_TABLE: &'static str = "world_region_name_state";

pub const SIGNED_IN_PLAYER_TABLE: &'static str = "signed_in_player_state";

/// Positions of the columns of `claim_state`.
#[derive(Debug, Clone, Copy, PartialEq, Eq, Structural)]
pub struct ClaimCols {
    pub entity_id: usize,
    pub owner_player_entity_id: usize,
    pub owner_building_entity_id: usize,
    pub name: usize,
    pub neutral: usize,
}

impl ClaimCols {
    /// Whether a row with `n` columns has them all.
    pub open spec fn fit(self, n: nat) -> bool {
        &&& self.entity_id < n
        &&& self.owner_player_entity_id < n
        &&& self.owner_building_entity_id < n
        &&& self.name < n
        &&& self.neutral < n
    }

    /// The positions of the columns in the schema.
    pub open spec fn found(self, schema: MirroredSchema) -> bool {
        &&& columns(schema, CLAIM_TABLE) is Ok
        &&& self.fit(columns(schema, CLAIM_TABLE)->Ok_0.len())
        &&& stands_at(schema, CLAIM_TABLE, "entity_id", self.entity_id)
        &&& stands_at(schema, CLAIM_TABLE, "owner_player_entity_id", self.owner_player_entity_id)
        &&& stands_at(schema, CLAIM_TABLE, "owner_building_entity_id", self.owner_building_entity_id)
        &&& stands_at(schema, CLAIM_TABLE, "name", self.name)
        &&& stands_at(schema, CLAIM_TABLE, "neutral", self.neutral)
    }

    /// The first column that the schema lacks, as an error.
    pub open spec fn missing(schema: MirroredSchema) -> Option<DecodeError> {
        lacking(
            schema,
            CLAIM_TABLE,
            seq![
                "entity_id",
                "owner_player_entity_id",
                "owner_building_entity_id",
                "name",
                "neutral",
            ],
        )
    }
}

/// Finds the columns of `claim_state`.
pub fn resolve_claim_cols(schema: &MirroredSchema) -> (r: Result<ClaimCols, DecodeError>)
    ensures
        match r {
            Ok(c) => {
                &&& c.found(*schema)
                &&& ClaimCols::missing(*schema) is None
            },
            Err(e) => ClaimCols::missing(*schema) == Some(e),
        },
{
    let names: [&'static str; 5] = [
        "entity_id",
        "owner_player_entity_id",
        "owner_building_entity_id",
        "name",
        "neutral",
    ];
    assert(names@ =~= seq![
        "entity_id",
        "owner_player_entity_id",
        "owner_building_entity_id",
        "name",
        "neutral",
    ]);
    let at: Vec<usize> = find_fields(schema, CLAIM_TABLE, names.as_slice())?;
    Ok(
        ClaimCols {
            entity_id: at[0],
            owner_player_entity_id: at[1],
            owner_building_entity_id: at[2],
            name: at[3],
            neutral: at[4],
        },
    )
}

/// Positions of the columns of `claim_local_state`.
#[derive(Debug, Clone, Copy, PartialEq, Eq, Structural)]
pub struct ClaimLocalCols {
    pub entity_id: usize,
    pub supplies: usize,
    pub building_maintenance: usize,
    pub num_tiles: usize,
    pub location: usize,
    pub treasury: usize,
    pub supplies_purchase_threshold: usize,
    pub supplies_purchase_price: usize,
}

impl ClaimLocalCols {
    /// Whether a row with `n` columns has them all.
    pub open spec fn fit(self, n: nat) -> bool {
        &&& self.entity_id < n
        &&& self.supplies < n
        &&& self.building_maintenance < n
        &&& self.num_tiles < n
        &&& self.location < n
        &&& self.treasury < n
        &&& self.supplies_purchase_threshold < n
        &&& self.supplies_purchase_price < n
    }

    /// The positions of the columns in the schema.
    pub open spec fn found(self, schema: MirroredSchema) -> bool {
        &&& columns(schema, CLAIM_LOCAL_TABLE) is Ok
        &&& self.fit(columns(schema, CLAIM_LOCAL_TABLE)->Ok_0.len())
        &&& stands_at(schema, CLAIM_LOCAL_TABLE, "entity_id", self.entity_id)
        &&& stands_at(schema, CLAIM_LOCAL_TABLE, "supplies", self.supplies)
        &&& stands_at(schema, CLAIM_LOCAL_TABLE, "building_maintenance", self.building_maintenance)
        &&& stands_at(schema, CLAIM_LOCAL_TABLE, "num_tiles", self.num_tiles)
        &&& stands_at(schema, CLAIM_LOCAL_TABLE, "location", self.location)
        &&& stands_at(schema, CLAIM_LOCAL_TABLE, "treasury", self.treasury)
        &&& stands_at(schema, CLAIM_LOCAL_TABLE, "supplies_purchase_threshold", self.supplies_purchase_threshold)
        &&& stands_at(schema, CLAIM_LOCAL_TABLE, "supplies_purchase_price", self.supplies_purchase_price)
    }

    /// The first column that the schema lacks, as an error.
    pub open spec fn missing(schema: MirroredSchema) -> Option<DecodeError> {
        lacking(
            schema,
            CLAIM_LOCAL_TABLE,
            seq![
                "entity_id",
                "supplies",
                "building_maintenance",
                "num_tiles",
                "location",
                "treasury",
                "supplies_purchase_threshold",
                "supplies_purchase_price",
            ],
        )
    }
}

/// Finds the columns of `claim_local_state`.
pub fn resolve_claim_local_cols(schema: &MirroredSchema) -> (r: Result<ClaimLocalCols, DecodeError>)
    ensures
        match r {
            Ok(c) => {
                &&& c.found(*schema)
                &&& ClaimLocalCols::missing(*schema) is None
            },
            Err(e) => ClaimLocalCols::missing(*schema) == Some(e),
        },
{
    let names: [&'static str; 8] = [
        "entity_id",
        "supplies",
        "building_maintenance",
        "num_tiles",
        "location",
        "treasury",
        "supplies_purchase_threshold",
        "supplies_purchase_price",
    ];
    assert(names@ =~= seq![
        "entity_id",
        "supplies",
        "building_maintenance",
        "num_tiles",
        "location",
        "treasury",
        "supplies_purchase_threshold",
        "supplies_purchase_price",
    ]);
    let at: Vec<usize> = find_fields(schema, CLAIM_LOCAL_TABLE, names.as_slice())?;
    Ok(
        ClaimLocalCols {
            entity_id: at[0],
            supplies: at[1],
            building_maintenance: at[2],
            num_tiles: at[3],
            location: at[4],
            treasury: at[5],
            supplies_purchase_threshold: at[6],
            supplies_purchase_price: at[7],
        },
    )
}

/// Positions of the columns of `claim_member_state`.
#[derive(Debug, Clone, Copy, PartialEq, Eq, Structural)]
pub struct ClaimMemberCols {
    pub entity_id: usize,
    pub claim_entity_id: usize,
    pub player_entity_id: usize,
    pub user_name: usize,
    pub inventory_permission: usize,
    pub build_permission: usize,
    pub officer_permission: usize,
    pub co_owner_permission: usize,
}

impl ClaimMemberCols {
    /// Whether a row with `n` columns has them all.
    pub open spec fn fit(self, n: nat) -> bool {
        &&& self.entity_id < n
        &&& self.claim_entity_id < n
        &&& self.player_entity_id < n
        &&& self.user_name < n
        &&& self.inventory_permission < n
        &&& self.build_permission < n
        &&& self.officer_permission < n
        &&& self.co_owner_permission < n
    }

    /// The positions of the columns in the schema.
    pub open spec fn found(self, schema: MirroredSchema) -> bool {
        &&& columns(schema, CLAIM_MEMBER_TABLE) is Ok
        &&& self.fit(columns(schema, CLAIM_MEMBER_TABLE)->Ok_0.len())
        &&& stands_at(schema, CLAIM_MEMBER_TABLE, "entity_id", self.entity_id)
        &&& stands_at(schema, CLAIM_MEMBER_TABLE, "claim_entity_id", self.claim_entity_id)
        &&& stands_at(schema, CLAIM_MEMBER_TABLE, "player_entity_id", self.player_entity_id)
        &&& stands_at(schema, CLAIM_MEMBER_TABLE, "user_name", self.user_name)
        &&& stands_at(schema, CLAIM_MEMBER_TABLE, "inventory_permission", self.inventory_permission)
        &&& stands_at(schema, CLAIM_MEMBER_TABLE, "build_permission", self.build_permission)
        &&& stands_at(schema, CLAIM_MEMBER_TABLE, "officer_permission", self.officer_permission)
        &&& stands_at(schema, CLAIM_MEMBER_TABLE, "co_owner_permission", self.co_owner_permission)
    }

    /// The first column that the schema lacks, as an error.
    pub open spec fn missing(schema: MirroredSchema) -> Option<DecodeError> {
        lacking(
            schema,
            CLAIM_MEMBER_TABLE,
            seq![
                "entity_id",
                "claim_entity_id",
                "player_entity_id",
                "user_name",
                "inventory_permission",
                "build_permission",
                "officer_permission",
                "co_owner_permission",
            ],
        )
    }
}

/// Finds the columns of `claim_member_state`.
pub fn resolve_claim_member_cols(schema: &MirroredSchema) -> (r: Result<ClaimMemberCols, DecodeError>)
    ensures
        match r {
            Ok(c) => {
                &&& c.found(*schema)
                &&& ClaimMemberCols::missing(*schema) is None
            },
            Err(e) => ClaimMemberCols::missing(*schema) == Some(e),
        },
{
    let names: [&'static str; 8] = [
        "entity_id",
        "claim_entity_id",
        "player_entity_id",
        "user_name",
        "inventory_permission",
        "build_permission",
        "officer_permission",
        "co_owner_permission",
    ];
    assert(names@ =~= seq![
        "entity_id",
        "claim_entity_id",
        "player_entity_id",
        "user_name",
        "inventory_permission",
        "build_permission",
        "officer_permission",
        "co_owner_permission",
    ]);
    let at: Vec<usize> = find_fields(schema, CLAIM_MEMBER_TABLE, names.as_slice())?;
    Ok(
        ClaimMemberCols {
            entity_id: at[0],
            claim_entity_id: at[1],
            player_entity_id: at[2],
            user_name: at[3],
            inventory_permission: at[4],
            build_permission: at[5],
            officer_permission: at[6],
            co_owner_permission: at[7],
        },
    )
}

/// Positions of the columns of `claim_tech_state`.
#[derive(Debug, Clone, Copy, PartialEq, Eq, Structural)]
pub struct ClaimTechStateCols {
    pub entity_id: usize,
    pub learned: usize,
    pub researching: usize,
    pub start_timestamp: usize,
}

impl ClaimTechStateCols {
    /// Whether a row with `n` columns has them all.
    pub open spec fn fit(self, n: nat) -> bool {
        &&& self.entity_id < n
        &&& self.learned < n
        &&& self.researching < n
        &&& self.start_timestamp < n
    }

    /// The positions of the columns in the schema.
    pub open spec fn found(self, schema: MirroredSchema) -> bool {
        &&& columns(schema, CLAIM_TECH_STATE_TABLE) is Ok
        &&& self.fit(columns(schema, CLAIM_TECH_STATE_TABLE)->Ok_0.len())
        &&& stands_at(schema, CLAIM_TECH_STATE_TABLE, "entity_id", self.entity_id)
        &&& stands_at(schema, CLAIM_TECH_STATE_TABLE, "learned", self.learned)
        &&& stands_at(schema, CLAIM_TECH_STATE_TABLE, "researching", self.researching)
        &&& stands_at(schema, CLAIM_TECH_STATE_TABLE, "start_timestamp", self.start_timestamp)
    }

    /// The first column that the schema lacks, as an error.
    pub open spec fn missing(schema: MirroredSchema) -> Option<DecodeError> {
        lacking(
            schema,
            CLAIM_TECH_STATE_TABLE,
            seq![
                "entity_id",
                "learned",
                "researching",
                "start_timestamp",
            ],
        )
    }
}

/// Finds the columns of `claim_tech_state`.
pub fn resolve_claim_tech_state_cols(schema: &MirroredSchema) -> (r: Result<ClaimTechStateCols, DecodeError>)
    ensures
        match r {
            Ok(c) => {
                &&& c.found(*schema)
                &&& ClaimTechStateCols::missing(*schema) is None
            },
            Err(e) => ClaimTechStateCols::missing(*schema) == Some(e),
        },
{
    let names: [&'static str; 4] = [
        "entity_id",
        "learned",
        "researching",
        "start_timestamp",
    ];
    assert(names@ =~= seq![
        "entity_id",
        "learned",
        "researching",
        "start_timestamp",
    ]);
    let at: Vec<usize> = find_fields(schema, CLAIM_TECH_STATE_TABLE, names.as_slice())?;
    Ok(
        ClaimTechStateCols {
            entity_id: at[0],
            learned: at[1],
            researching: at[2],
            start_timestamp: at[3],
        },
    )
}

/// Positions of the columns of `claim_tech_desc`.
#[derive(Debug, Clone, Copy, PartialEq, Eq, Structural)]
pub struct ClaimTechDescCols {
    pub id: usize,
    pub name: usize,
    pub description: usize,
    pub tier: usize,
    pub tech_type: usize,
    pub supplies_cost: usize,
    pub research_time: usize,
    pub requirements: usize,
    pub members: usize,
    pub area: usize,
    pub unlocks_techs: usize,
}

impl ClaimTechDescCols {
    /// Whether a row with `n` columns has them all.
    pub open spec fn fit(self, n: nat) -> bool {
        &&& self.id < n
        &&& self.name < n
        &&& self.description < n
        &&& self.tier < n
        &&& self.tech_type < n
        &&& self.supplies_cost < n
        &&& self.research_time < n
        &&& self.requirements < n
        &&& self.members < n
        &&& self.area < n
        &&& self.unlocks_techs < n
    }

    /// The positions of the columns in the schema.
    pub open spec fn found(self, schema: MirroredSchema) -> bool {
        &&& columns(schema, CLAIM_TECH_DESC_TABLE) is Ok
        &&& self.fit(columns(schema, CLAIM_TECH_DESC_TABLE)->Ok_0.len())
        &&& stands_at(schema, CLAIM_TECH_DESC_TABLE, "id", self.id)
        &&& stands_at(schema, CLAIM_TECH_DESC_TABLE, "name", self.name)
        &&& stands_at(schema, CLAIM_TECH_DESC_TABLE, "description", self.description)
        &&& stands_at(schema, CLAIM_TECH_DESC_TABLE, "tier", self.tier)
        &&& stands_at(schema, CLAIM_TECH_DESC_TABLE, "tech_type", self.tech_type)
        &&& stands_at(schema, CLAIM_TECH_DESC_TABLE, "supplies_cost", self.supplies_cost)
        &&& stands_at(schema, CLAIM_TECH_DESC_TABLE, "research_time", self.research_time)
        &&& stands_at(schema, CLAIM_TECH_DESC_TABLE, "requirements", self.requirements)
        &&& stands_at(schema, CLAIM_TECH_DESC_TABLE, "members", self.members)
        &&& stands_at(schema, CLAIM_TECH_DESC_TABLE, "area", self.area)
        &&& stands_at(schema, CLAIM_TECH_DESC_TABLE, "unlocks_techs", self.unlocks_techs)
    }

    /// The first column that the schema lacks, as an error.
    pub open spec fn missing(schema: MirroredSchema) -> Option<DecodeError> {
        lacking(
            schema,
            CLAIM_TECH_DESC_TABLE,
            seq![
                "id",
                "name",
                "description",
                "tier",
                "tech_type",
                "supplies_cost",
                "research_time",
                "requirements",
                "members",
                "area",
                "unlocks_techs",
            ],
        )
    }
}

/// Finds the columns of `claim_tech_desc`.
pub fn resolve_claim_tech_desc_cols(schema: &MirroredSchema) -> (r: Result<ClaimTechDescCols, DecodeError>)
    ensures
        match r {
            Ok(c) => {
                &&& c.found(*schema)
                &&& ClaimTechDescCols::missing(*schema) is None
            },
            Err(e) => ClaimTechDescCols::missing(*schema) == Some(e),
        },
{
    let names: [&'static str; 11] = [
        "id",
        "name",
        "description",
        "tier",
        "tech_type",
        "supplies_cost",
        "research_time",
        "requirements",
        "members",
        "area",
        "unlocks_techs",
    ];
    assert(names@ =~= seq![
        "id",
        "name",
        "description",
        "tier",
        "tech_type",
        "supplies_cost",
        "research_time",
        "requirements",
        "members",
        "area",
        "unlocks_techs",
    ]);
    let at: Vec<usize> = find_fields(schema, CLAIM_TECH_DESC_TABLE, names.as_slice())?;
    Ok(
        ClaimTechDescCols {
            id: at[0],
            name: at[1],
            description: at[2],
            tier: at[3],
            tech_type: at[4],
            supplies_cost: at[5],
            research_time: at[6],
            requirements: at[7],
            members: at[8],
            area: at[9],
            unlocks_techs: at[10],
        },
    )
}

/// Positions of the columns of `claim_tile_cost`.
#[derive(Debug, Clone, Copy, PartialEq, Eq, Structural)]
pub struct ClaimTileCostCols {
    pub tile_count: usize,
    pub cost_per_tile: usize,
}

impl ClaimTileCostCols {
    /// Whether a row with `n` columns has them all.
    pub open spec fn fit(self, n: nat) -> bool {
        &&& self.tile_count < n
        &&& self.cost_per_tile < n
    }

    /// The positions of the columns in the schema.
    pub open spec fn found(self, schema: MirroredSchema) -> bool {
        &&& columns(schema, CLAIM_TILE_COST_TABLE) is Ok
        &&& self.fit(columns(schema, CLAIM_TILE_COST_TABLE)->Ok_0.len())
        &&& stands_at(schema, CLAIM_TILE_COST_TABLE, "tile_count", self.tile_count)
        &&& stands_at(schema, CLAIM_TILE_COST_TABLE, "cost_per_tile", self.cost_per_tile)
    }

    /// The first column that the schema lacks, as an error.
    pub open spec fn missing(schema: MirroredSchema) -> Option<DecodeError> {
        lacking(
            schema,
            CLAIM_TILE_COST_TABLE,
            seq![
                "tile_count",
                "cost_per_tile",
            ],
        )
    }
}

/// Finds the columns of `claim_tile_cost`.
pub fn resolve_claim_tile_cost_cols(schema: &MirroredSchema) -> (r: Result<ClaimTileCostCols, DecodeError>)
    ensures
        match r {
            Ok(c) => {
                &&& c.found(*schema)
                &&& ClaimTileCostCols::missing(*schema) is None
            },
            Err(e) => ClaimTileCostCols::missing(*schema) == Some(e),
        },
{
    let names: [&'static str; 2] = [
        "tile_count",
        "cost_per_tile",
    ];
    assert(names@ =~= seq![
        "tile_count",
        "cost_per_tile",
    ]);
    let at: Vec<usize> = find_fields(schema, CLAIM_TILE_COST_TABLE, names.as_slice())?;
    Ok(
        ClaimTileCostCols {
            tile_count: at[0],
            cost_per_tile: at[1],
        },
    )
}

/// Positions of the columns of `experience_state`.
#[derive(Debug, Clone, Copy, PartialEq, Eq, Structural)]
pub struct ExperienceCols {
    pub entity_id: usize,
    pub experience_stacks: usize,
}

impl ExperienceCols {
    /// Whether a row with `n` columns has them all.
    pub open spec fn fit(self, n: nat) -> bool {
        &&& self.entity_id < n
        &&& self.experience_stacks < n
    }

    /// The positions of the columns in the schema.
    pub open spec fn found(self, schema: MirroredSchema) -> bool {
        &&& columns(schema, EXPERIENCE_TABLE) is Ok
        &&& self.fit(columns(schema, EXPERIENCE_TABLE)->Ok_0.len())
        &&& stands_at(schema, EXPERIENCE_TABLE, "entity_id", self.entity_id)
        &&& stands_at(schema, EXPERIENCE_TABLE, "experience_stacks", self.experience_stacks)
    }

    /// The first column that the schema lacks, as an error.
    pub open spec fn missing(schema: MirroredSchema) -> Option<DecodeError> {
        lacking(
            schema,
            EXPERIENCE_TABLE,
            seq![
                "entity_id",
                "experience_stacks",
            ],
        )
    }
}

/// Finds the columns of `experience_state`.
pub fn resolve_experience_cols(schema: &MirroredSchema) -> (r: Result<ExperienceCols, DecodeError>)
    ensures
        match r {
            Ok(c) => {
                &&& c.found(*schema)
                &&& ExperienceCols::missing(*schema) is None
            },
            Err(e) => ExperienceCols::missing(*schema) == Some(e),
        },
{
    let names: [&'static str; 2] = [
        "entity_id",
        "experience_stacks",
    ];
    assert(names@ =~= seq![
        "entity_id",
        "experience_stacks",
    ]);
    let at: Vec<usize> = find_fields(schema, EXPERIENCE_TABLE, names.as_slice())?;
    Ok(
        ExperienceCols {
            entity_id: at[0],
            experience_stacks: at[1],
        },
    )
}

/// Positions of the columns of `skill_desc`.
#[derive(Debug, Clone, Copy, PartialEq, Eq, Structural)]
pub struct SkillDescCols {
    pub id: usize,
    pub name: usize,
    pub title: usize,
    pub max_level: usize,
}

impl SkillDescCols {
    /// Whether a row with `n` columns has them all.
    pub open spec fn fit(self, n: nat) -> bool {
        &&& self.id < n
        &&& self.name < n
        &&& self.title < n
        &&& self.max_level < n
    }

    /// The positions of the columns in the schema.
    pub open spec fn found(self, schema: MirroredSchema) -> bool {
        &&& columns(schema, SKILL_DESC_TABLE) is Ok
        &&& self.fit(columns(schema, SKILL_DESC_TABLE)->Ok_0.len())
        &&& stands_at(schema, SKILL_DESC_TABLE, "id", self.id)
        &&& stands_at(schema, SKILL_DESC_TABLE, "name", self.name)
        &&& stands_at(schema, SKILL_DESC_TABLE, "title", self.title)
        &&& stands_at(schema, SKILL_DESC_TABLE, "max_level", self.max_level)
    }

    /// The first column that the schema lacks, as an error.
    pub open spec fn missing(schema: MirroredSchema) -> Option<DecodeError> {
        lacking(
            schema,
            SKILL_DESC_TABLE,
            seq![
                "id",
                "name",
                "title",
                "max_level",
            ],
        )
    }
}

/// Finds the columns of `skill_desc`.
pub fn resolve_skill_desc_cols(schema: &MirroredSchema) -> (r: Result<SkillDescCols, DecodeError>)
    ensures
        match r {
            Ok(c) => {
                &&& c.found(*schema)
                &&& SkillDescCols::missing(*schema) is None
            },
            Err(e) => SkillDescCols::missing(*schema) == Some(e),
        },
{
    let names: [&'static str; 4] = [
        "id",
        "name",
        "title",
        "max_level",
    ];
    assert(names@ =~= seq![
        "id",
        "name",
        "title",
        "max_level",
    ]);
    let at: Vec<usize> = find_fields(schema, SKILL_DESC_TABLE, names.as_slice())?;
    Ok(
        SkillDescCols {
            id: at[0],
            name: at[1],
            title: at[2],
            max_level: at[3],
        },
    )
}

/// Positions of the columns of `progressive_action_state`.
#[derive(Debug, Clone, Copy, PartialEq, Eq, Structural)]
pub struct ProgressiveActionCols {
    pub entity_id: usize,
    pub building_entity_id: usize,
    pub progress: usize,
    pub recipe_id: usize,
    pub craft_count: usize,
    pub owner_entity_id: usize,
}

impl ProgressiveActionCols {
    /// Whether a row with `n` columns has them all.
    pub open spec fn fit(self, n: nat) -> bool {
        &&& self.entity_id < n
        &&& self.building_entity_id < n
        &&& self.progress < n
        &&& self.recipe_id < n
        &&& self.craft_count < n
        &&& self.owner_entity_id < n
    }

    /// The positions of the columns in the schema.
    pub open spec fn found(self, schema: MirroredSchema) -> bool {
        &&& columns(schema, PROGRESSIVE_ACTION_TABLE) is Ok
        &&& self.fit(columns(schema, PROGRESSIVE_ACTION_TABLE)->Ok_0.len())
        &&& stands_at(schema, PROGRESSIVE_ACTION_TABLE, "entity_id", self.entity_id)
        &&& stands_at(schema, PROGRESSIVE_ACTION_TABLE, "building_entity_id", self.building_entity_id)
        &&& stands_at(schema, PROGRESSIVE_ACTION_TABLE, "progress", self.progress)
        &&& stands_at(schema, PROGRESSIVE_ACTION_TABLE, "recipe_id", self.recipe_id)
        &&& stands_at(schema, PROGRESSIVE_ACTION_TABLE, "craft_count", self.craft_count)
        &&& stands_at(schema, PROGRESSIVE_ACTION_TABLE, "owner_entity_id", self.owner_entity_id)
    }

    /// The first column that the schema lacks, as an error.
    pub open spec fn missing(schema: MirroredSchema) -> Option<DecodeError> {
        lacking(
            schema,
            PROGRESSIVE_ACTION_TABLE,
            seq![
                "entity_id",
                "building_entity_id",
                "progress",
                "recipe_id",
                "craft_count",
                "owner_entity_id",
            ],
        )
    }
}

/// Finds the columns of `progressive_action_state`.
pub fn resolve_progressive_action_cols(schema: &MirroredSchema) -> (r: Result<ProgressiveActionCols, DecodeError>)
    ensures
        match r {
            Ok(c) => {
                &&& c.found(*schema)
                &&& ProgressiveActionCols::missing(*schema) is None
            },
            Err(e) => ProgressiveActionCols::missing(*schema) == Some(e),
        },
{
    let names: [&'static str; 6] = [
        "entity_id",
        "building_entity_id",
        "progress",
        "recipe_id",
        "craft_count",
        "owner_entity_id",
    ];
    assert(names@ =~= seq![
        "entity_id",
        "building_entity_id",
        "progress",
        "recipe_id",
        "craft_count",
        "owner_entity_id",
    ]);
    let at: Vec<usize> = find_fields(schema, PROGRESSIVE_ACTION_TABLE, names.as_slice())?;
    Ok(
        ProgressiveActionCols {
            entity_id: at[0],
            building_entity_id: at[1],
            progress: at[2],
            recipe_id: at[3],
            craft_count: at[4],
            owner_entity_id: at[5],
        },
    )
}

/// Positions of the columns of `public_progressive_action_state`.
#[derive(Debug, Clone, Copy, PartialEq, Eq, Structural)]
pub struct PublicProgressiveActionCols {
    pub entity_id: usize,
    pub building_entity_id: usize,
    pub owner_entity_id: usize,
}

impl PublicProgressiveActionCols {
    /// Whether a row with `n` columns has them all.
    pub open spec fn fit(self, n: nat) -> bool {
        &&& self.entity_id < n
        &&& self.building_entity_id < n
        &&& self.owner_entity_id < n
    }

    /// The positions of the columns in the schema.
    pub open spec fn found(self, schema: MirroredSchema) -> bool {
        &&& columns(schema, PUBLIC_PROGRESSIVE_ACTION_TABLE) is Ok
        &&& self.fit(columns(schema, PUBLIC_PROGRESSIVE_ACTION_TABLE)->Ok_0.len())
        &&& stands_at(schema, PUBLIC_PROGRESSIVE_ACTION_TABLE, "entity_id", self.entity_id)
        &&& stands_at(schema, PUBLIC_PROGRESSIVE_ACTION_TABLE, "building_entity_id", self.building_entity_id)
        &&& stands_at(schema, PUBLIC_PROGRESSIVE_ACTION_TABLE, "owner_entity_id", self.owner_entity_id)
    }

    /// The first column that the schema lacks, as an error.
    pub open spec fn missing(schema: MirroredSchema) -> Option<DecodeError> {
        lacking(
            schema,
            PUBLIC_PROGRESSIVE_ACTION_TABLE,
            seq![
                "entity_id",
                "building_entity_id",
                "owner_entity_id",
            ],
        )
    }
}

/// Finds the columns of `public_progressive_action_state`.
pub fn resolve_public_progressive_action_cols(schema: &MirroredSchema) -> (r: Result<
    PublicProgressiveActionCols,
    DecodeError,
>)
    ensures
        match r {
            Ok(c) => {
                &&& c.found(*schema)
                &&& PublicProgressiveActionCols::missing(*schema) is None
            },
            Err(e) => PublicProgressiveActionCols::missing(*schema) == Some(e),
        },
{
    let names: [&'static str; 3] = [
        "entity_id",
        "building_entity_id",
        "owner_entity_id",
    ];
    assert(names@ =~= seq![
        "entity_id",
        "building_entity_id",
        "owner_entity_id",
    ]);
    let at: Vec<usize> = find_fields(schema, PUBLIC_PROGRESSIVE_ACTION_TABLE, names.as_slice())?;
    Ok(
        PublicProgressiveActionCols {
            entity_id: at[0],
            building_entity_id: at[1],
            owner_entity_id: at[2],
        },
    )
}

/// Positions of the columns of `passive_craft_state`.
#[derive(Debug, Clone, Copy, PartialEq, Eq, Structural)]
pub struct PassiveCraftCols {
    pub entity_id: usize,
    pub owner_entity_id: usize,
    pub recipe_id: usize,
    pub building_entity_id: usize,
    pub status: usize,
}

impl PassiveCraftCols {
    /// Whether a row with `n` columns has them all.
    pub open spec fn fit(self, n: nat) -> bool {
        &&& self.entity_id < n
        &&& self.owner_entity_id < n
        &&& self.recipe_id < n
        &&& self.building_entity_id < n
        &&& self.status < n
    }

    /// The positions of the columns in the schema.
    pub open spec fn found(self, schema: MirroredSchema) -> bool {
        &&& columns(schema, PASSIVE_CRAFT_TABLE) is Ok
        &&& self.fit(columns(schema, PASSIVE_CRAFT_TABLE)->Ok_0.len())
        &&& stands_at(schema, PASSIVE_CRAFT_TABLE, "entity_id", self.entity_id)
        &&& stands_at(schema, PASSIVE_CRAFT_TABLE, "owner_entity_id", self.owner_entity_id)
        &&& stands_at(schema, PASSIVE_CRAFT_TABLE, "recipe_id", self.recipe_id)
        &&& stands_at(schema, PASSIVE_CRAFT_TABLE, "building_entity_id", self.building_entity_id)
        &&& stands_at(schema, PASSIVE_CRAFT_TABLE, "status", self.status)
    }

    /// The first column that the schema lacks, as an error.
    pub open spec fn missing(schema: MirroredSchema) -> Option<DecodeError> {
        lacking(
            schema,
            PASSIVE_CRAFT_TABLE,
            seq![
                "entity_id",
                "owner_entity_id",
                "recipe_id",
                "building_entity_id",
                "status",
            ],
        )
    }
}

/// Finds the columns of `passive_craft_state`.
pub fn resolve_passive_craft_cols(schema: &MirroredSchema) -> (r: Result<PassiveCraftCols, DecodeError>)
    ensures
        match r {
            Ok(c) => {
                &&& c.found(*schema)
                &&& PassiveCraftCols::missing(*schema) is None
            },
            Err(e) => PassiveCraftCols::missing(*schema) == Some(e),
        },
{
    let names: [&'static str; 5] = [
        "entity_id",
        "owner_entity_id",
        "recipe_id",
        "building_entity_id",
        "status",
    ];
    assert(names@ =~= seq![
        "entity_id",
        "owner_entity_id",
        "recipe_id",
        "building_entity_id",
        "status",
    ]);
    let at: Vec<usize> = find_fields(schema, PASSIVE_CRAFT_TABLE, names.as_slice())?;
    Ok(
        PassiveCraftCols {
            entity_id: at[0],
            owner_entity_id: at[1],
            recipe_id: at[2],
            building_entity_id: at[3],
            status: at[4],
        },
    )
}

/// Positions of the columns of `crafting_recipe_desc`.
#[derive(Debug, Clone, Copy, PartialEq, Eq, Structural)]
pub struct CraftingRecipeDescCols {
    pub id: usize,
    pub crafted_item_stacks: usize,
    pub actions_required: usize,
}

impl CraftingRecipeDescCols {
    /// Whether a row with `n` columns has them all.
    pub open spec fn fit(self, n: nat) -> bool {
        &&& self.id < n
        &&& self.crafted_item_stacks < n
        &&& self.actions_required < n
    }

    /// The positions of the columns in the schema.
    pub open spec fn found(self, schema: MirroredSchema) -> bool {
        &&& columns(schema, CRAFTING_RECIPE_DESC_TABLE) is Ok
        &&& self.fit(columns(schema, CRAFTING_RECIPE_DESC_TABLE)->Ok_0.len())
        &&& stands_at(schema, CRAFTING_RECIPE_DESC_TABLE, "id", self.id)
        &&& stands_at(schema, CRAFTING_RECIPE_DESC_TABLE, "crafted_item_stacks", self.crafted_item_stacks)
        &&& stands_at(schema, CRAFTING_RECIPE_DESC_TABLE, "actions_required", self.actions_required)
    }

    /// The first column that the schema lacks, as an error.
    pub open spec fn missing(schema: MirroredSchema) -> Option<DecodeError> {
        lacking(
            schema,
            CRAFTING_RECIPE_DESC_TABLE,
            seq![
                "id",
                "crafted_item_stacks",
                "actions_required",
            ],
        )
    }
}

/// Finds the columns of `crafting_recipe_desc`.
pub fn resolve_crafting_recipe_desc_cols(schema: &MirroredSchema) -> (r: Result<CraftingRecipeDescCols, DecodeError>)
    ensures
        match r {
            Ok(c) => {
                &&& c.found(*schema)
                &&& CraftingRecipeDescCols::missing(*schema) is None
            },
            Err(e) => CraftingRecipeDescCols::missing(*schema) == Some(e),
        },
{
    let names: [&'static str; 3] = [
        "id",
        "crafted_item_stacks",
        "actions_required",
    ];
    assert(names@ =~= seq![
        "id",
        "crafted_item_stacks",
        "actions_required",
    ]);
    let at: Vec<usize> = find_fields(schema, CRAFTING_RECIPE_DESC_TABLE, names.as_slice())?;
    Ok(
        CraftingRecipeDescCols {
            id: at[0],
            crafted_item_stacks: at[1],
            actions_required: at[2],
        },
    )
}

/// Positions of the columns of `building_state`.
#[derive(Debug, Clone, Copy, PartialEq, Eq, Structural)]
pub struct BuildingCols {
    pub entity_id: usize,
    pub claim_entity_id: usize,
    pub building_description_id: usize,
}

impl BuildingCols {
    /// Whether a row with `n` columns has them all.
    pub open spec fn fit(self, n: nat) -> bool {
        &&& self.entity_id < n
        &&& self.claim_entity_id < n
        &&& self.building_description_id < n
    }

    /// The positions of the columns in the schema.
    pub open spec fn found(self, schema: MirroredSchema) -> bool {
        &&& columns(schema, BUILDING_TABLE) is Ok
        &&& self.fit(columns(schema, BUILDING_TABLE)->Ok_0.len())
        &&& stands_at(schema, BUILDING_TABLE, "entity_id", self.entity_id)
        &&& stands_at(schema, BUILDING_TABLE, "claim_entity_id", self.claim_entity_id)
        &&& stands_at(schema, BUILDING_TABLE, "building_description_id", self.building_description_id)
    }

    /// The first column that the schema lacks, as an error.
    pub open spec fn missing(schema: MirroredSchema) -> Option<DecodeError> {
        lacking(
            schema,
            BUILDING_TABLE,
            seq![
                "entity_id",
                "claim_entity_id",
                "building_description_id",
            ],
        )
    }
}

/// Finds the columns of `building_state`.
pub fn resolve_building_cols(schema: &MirroredSchema) -> (r: Result<BuildingCols, DecodeError>)
    ensures
        match r {
            Ok(c) => {
                &&& c.found(*schema)
                &&& BuildingCols::missing(*schema) is None
            },
            Err(e) => BuildingCols::missing(*schema) == Some(e),
        },
{
    let names: [&'static str; 3] = [
        "entity_id",
        "claim_entity_id",
        "building_description_id",
    ];
    assert(names@ =~= seq![
        "entity_id",
        "claim_entity_id",
        "building_description_id",
    ]);
    let at: Vec<usize> = find_fields(schema, BUILDING_TABLE, names.as_slice())?;
    Ok(
        BuildingCols {
            entity_id: at[0],
            claim_entity_id: at[1],
            building_description_id: at[2],
        },
    )
}

/// Positions of the columns of `inventory_state`.
#[derive(Debug, Clone, Copy, PartialEq, Eq, Structural)]
pub struct InventoryCols {
    pub entity_id: usize,
    pub pockets: usize,
    pub inventory_index: usize,
    pub cargo_index: usize,
    pub owner_entity_id: usize,
    pub player_owner_entity_id: usize,
}

impl InventoryCols {
    /// Whether a row with `n` columns has them all.
    pub open spec fn fit(self, n: nat) -> bool {
        &&& self.entity_id < n
        &&& self.pockets < n
        &&& self.inventory_index < n
        &&& self.cargo_index < n
        &&& self.owner_entity_id < n
        &&& self.player_owner_entity_id < n
    }

    /// The positions of the columns in the schema.
    pub open spec fn found(self, schema: MirroredSchema) -> bool {
        &&& columns(schema, INVENTORY_TABLE) is Ok
        &&& self.fit(columns(schema, INVENTORY_TABLE)->Ok_0.len())
        &&& stands_at(schema, INVENTORY_TABLE, "entity_id", self.entity_id)
        &&& stands_at(schema, INVENTORY_TABLE, "pockets", self.pockets)
        &&& stands_at(schema, INVENTORY_TABLE, "inventory_index", self.inventory_index)
        &&& stands_at(schema, INVENTORY_TABLE, "cargo_index", self.cargo_index)
        &&& stands_at(schema, INVENTORY_TABLE, "owner_entity_id", self.owner_entity_id)
        &&& stands_at(schema, INVENTORY_TABLE, "player_owner_entity_id", self.player_owner_entity_id)
    }

    /// The first column that the schema lacks, as an error.
    pub open spec fn missing(schema: MirroredSchema) -> Option<DecodeError> {
        lacking(
            schema,
            INVENTORY_TABLE,
            seq![
                "entity_id",
                "pockets",
                "inventory_index",
                "cargo_index",
                "owner_entity_id",
                "player_owner_entity_id",
            ],
        )
    }
}

/// Finds the columns of `inventory_state`.
pub fn resolve_inventory_cols(schema: &MirroredSchema) -> (r: Result<InventoryCols, DecodeError>)
    ensures
        match r {
            Ok(c) => {
                &&& c.found(*schema)
                &&& InventoryCols::missing(*schema) is None
            },
            Err(e) => InventoryCols::missing(*schema) == Some(e),
        },
{
    let names: [&'static str; 6] = [
        "entity_id",
        "pockets",
        "inventory_index",
        "cargo_index",
        "owner_entity_id",
        "player_owner_entity_id",
    ];
    assert(names@ =~= seq![
        "entity_id",
        "pockets",
        "inventory_index",
        "cargo_index",
        "owner_entity_id",
        "player_owner_entity_id",
    ]);
    let at: Vec<usize> = find_fields(schema, INVENTORY_TABLE, names.as_slice())?;
    Ok(
        InventoryCols {
            entity_id: at[0],
            pockets: at[1],
            inventory_index: at[2],
            cargo_index: at[3],
            owner_entity_id: at[4],
            player_owner_entity_id: at[5],
        },
    )
}

/// Positions of the columns of `building_desc`.
#[derive(Debug, Clone, Copy, PartialEq, Eq, Structural)]
pub struct BuildingDescCols {
    pub id: usize,
    pub name: usize,
    pub functions: usize,
}

impl BuildingDescCols {
    /// Whether a row with `n` columns has them all.
    pub open spec fn fit(self, n: nat) -> bool {
        &&& self.id < n
        &&& self.name < n
        &&& self.functions < n
    }

    /// The positions of the columns in the schema.
    pub open spec fn found(self, schema: MirroredSchema) -> bool {
        &&& columns(schema, BUILDING_DESC_TABLE) is Ok
        &&& self.fit(columns(schema, BUILDING_DESC_TABLE)->Ok_0.len())
        &&& stands_at(schema, BUILDING_DESC_TABLE, "id", self.id)
        &&& stands_at(schema, BUILDING_DESC_TABLE, "name", self.name)
        &&& stands_at(schema, BUILDING_DESC_TABLE, "functions", self.functions)
    }

    /// The first column that the schema lacks, as an error.
    pub open spec fn missing(schema: MirroredSchema) -> Option<DecodeError> {
        lacking(
            schema,
            BUILDING_DESC_TABLE,
            seq![
                "id",
                "name",
                "functions",
            ],
        )
    }
}

/// Finds the columns of `building_desc`.
pub fn resolve_building_desc_cols(schema: &MirroredSchema) -> (r: Result<BuildingDescCols, DecodeError>)
    ensures
        match r {
            Ok(c) => {
                &&& c.found(*schema)
                &&& BuildingDescCols::missing(*schema) is None
            },
            Err(e) => BuildingDescCols::missing(*schema) == Some(e),
        },
{
    let names: [&'static str; 3] = [
        "id",
        "name",
        "functions",
    ];
    assert(names@ =~= seq![
        "id",
        "name",
        "functions",
    ]);
    let at: Vec<usize> = find_fields(schema, BUILDING_DESC_TABLE, names.as_slice())?;
    Ok(
        BuildingDescCols {
            id: at[0],
            name: at[1],
            functions: at[2],
        },
    )
}

/// Positions of the columns of `building_nickname_state`.
#[derive(Debug, Clone, Copy, PartialEq, Eq, Structural)]
pub struct BuildingNicknameCols {
    pub entity_id: usize,
    pub nickname: usize,
}

impl BuildingNicknameCols {
    /// Whether a row with `n` columns has them all.
    pub open spec fn fit(self, n: nat) -> bool {
        &&& self.entity_id < n
        &&& self.nickname < n
    }

    /// The positions of the columns in the schema.
    pub open spec fn found(self, schema: MirroredSchema) -> bool {
        &&& columns(schema, BUILDING_NICKNAME_TABLE) is Ok
        &&& self.fit(columns(schema, BUILDING_NICKNAME_TABLE)->Ok_0.len())
        &&& stands_at(schema, BUILDING_NICKNAME_TABLE, "entity_id", self.entity_id)
        &&& stands_at(schema, BUILDING_NICKNAME_TABLE, "nickname", self.nickname)
    }

    /// The first column that the schema lacks, as an error.
    pub open spec fn missing(schema: MirroredSchema) -> Option<DecodeError> {
        lacking(
            schema,
            BUILDING_NICKNAME_TABLE,
            seq![
                "entity_id",
                "nickname",
            ],
        )
    }
}

/// Finds the columns of `building_nickname_state`.
pub fn resolve_building_nickname_cols(schema: &MirroredSchema) -> (r: Result<BuildingNicknameCols, DecodeError>)
    ensures
        match r {
            Ok(c) => {
                &&& c.found(*schema)
                &&& BuildingNicknameCols::missing(*schema) is None
            },
            Err(e) => BuildingNicknameCols::missing(*schema) == Some(e),
        },
{
    let names: [&'static str; 2] = [
        "entity_id",
        "nickname",
    ];
    assert(names@ =~= seq![
        "entity_id",
        "nickname",
    ]);
    let at: Vec<usize> = find_fields(schema, BUILDING_NICKNAME_TABLE, names.as_slice())?;
    Ok(
        BuildingNicknameCols {
            entity_id: at[0],
            nickname: at[1],
        },
    )
}

/// Positions of the columns of `location_state`.
#[derive(Debug, Clone, Copy, PartialEq, Eq, Structural)]
pub struct LocationCols {
    pub entity_id: usize,
    pub x: usize,
    pub z: usize,
    pub dimension: usize,
}

impl LocationCols {
    /// Whether a row with `n` columns has them all.
    pub open spec fn fit(self, n: nat) -> bool {
        &&& self.entity_id < n
        &&& self.x < n
        &&& self.z < n
        &&& self.dimension < n
    }

    /// The positions of the columns in the schema.
    pub open spec fn found(self, schema: MirroredSchema) -> bool {
        &&& columns(schema, LOCATION_TABLE) is Ok
        &&& self.fit(columns(schema, LOCATION_TABLE)->Ok_0.len())
        &&& stands_at(schema, LOCATION_TABLE, "entity_id", self.entity_id)
        &&& stands_at(schema, LOCATION_TABLE, "x", self.x)
        &&& stands_at(schema, LOCATION_TABLE, "z", self.z)
        &&& stands_at(schema, LOCATION_TABLE, "dimension", self.dimension)
    }

    /// The first column that the schema lacks, as an error.
    pub open spec fn missing(schema: MirroredSchema) -> Option<DecodeError> {
        lacking(
            schema,
            LOCATION_TABLE,
            seq![
                "entity_id",
                "x",
                "z",
                "dimension",
            ],
        )
    }
}

/// Finds the columns of `location_state`.
pub fn resolve_location_cols(schema: &MirroredSchema) -> (r: Result<LocationCols, DecodeError>)
    ensures
        match r {
            Ok(c) => {
                &&& c.found(*schema)
                &&& LocationCols::missing(*schema) is None
            },
            Err(e) => LocationCols::missing(*schema) == Some(e),
        },
{
    let names: [&'static str; 4] = [
        "entity_id",
        "x",
        "z",
        "dimension",
    ];
    assert(names@ =~= seq![
        "entity_id",
        "x",
        "z",
        "dimension",
    ]);
    let at: Vec<usize> = find_fields(schema, LOCATION_TABLE, names.as_slice())?;
    Ok(
        LocationCols {
            entity_id: at[0],
            x: at[1],
            z: at[2],
            dimension: at[3],
        },
    )
}

/// Positions of the columns of `resource_state`.
#[derive(Debug, Clone, Copy, PartialEq, Eq, Structural)]
pub struct ResourceCols {
    pub entity_id: usize,
    pub resource_id: usize,
    pub direction_index: usize,
}

impl ResourceCols {
    /// Whether a row with `n` columns has them all.
    pub open spec fn fit(self, n: nat) -> bool {
        &&& self.entity_id < n
        &&& self.resource_id < n
        &&& self.direction_index < n
    }

    /// The positions of the columns in the schema.
    pub open spec fn found(self, schema: MirroredSchema) -> bool {
        &&& columns(schema, RESOURCE_TABLE) is Ok
        &&& self.fit(columns(schema, RESOURCE_TABLE)->Ok_0.len())
        &&& stands_at(schema, RESOURCE_TABLE, "entity_id", self.entity_id)
        &&& stands_at(schema, RESOURCE_TABLE, "resource_id", self.resource_id)
        &&& stands_at(schema, RESOURCE_TABLE, "direction_index", self.direction_index)
    }

    /// The first column that the schema lacks, as an error.
    pub open spec fn missing(schema: MirroredSchema) -> Option<DecodeError> {
        lacking(
            schema,
            RESOURCE_TABLE,
            seq![
                "entity_id",
                "resource_id",
                "direction_index",
            ],
        )
    }
}

/// Finds the columns of `resource_state`.
pub fn resolve_resource_cols(schema: &MirroredSchema) -> (r: Result<ResourceCols, DecodeError>)
    ensures
        match r {
            Ok(c) => {
                &&& c.found(*schema)
                &&& ResourceCols::missing(*schema) is None
            },
            Err(e) => ResourceCols::missing(*schema) == Some(e),
        },
{
    let names: [&'static str; 3] = [
        "entity_id",
        "resource_id",
        "direction_index",
    ];
    assert(names@ =~= seq![
        "entity_id",
        "resource_id",
        "direction_index",
    ]);
    let at: Vec<usize> = find_fields(schema, RESOURCE_TABLE, names.as_slice())?;
    Ok(
        ResourceCols {
            entity_id: at[0],
            resource_id: at[1],
            direction_index: at[2],
        },
    )
}

/// Positions of the columns of `growth_state`.
#[derive(Debug, Clone, Copy, PartialEq, Eq, Structural)]
pub struct GrowthCols {
    pub entity_id: usize,
    pub end_timestamp: usize,
    pub growth_recipe_id: usize,
}

impl GrowthCols {
    /// Whether a row with `n` columns has them all.
    pub open spec fn fit(self, n: nat) -> bool {
        &&& self.entity_id < n
        &&& self.end_timestamp < n
        &&& self.growth_recipe_id < n
    }

    /// The positions of the columns in the schema.
    pub open spec fn found(self, schema: MirroredSchema) -> bool {
        &&& columns(schema, GROWTH_TABLE) is Ok
        &&& self.fit(columns(schema, GROWTH_TABLE)->Ok_0.len())
        &&& stands_at(schema, GROWTH_TABLE, "entity_id", self.entity_id)
        &&& stands_at(schema, GROWTH_TABLE, "end_timestamp", self.end_timestamp)
        &&& stands_at(schema, GROWTH_TABLE, "growth_recipe_id", self.growth_recipe_id)
    }

    /// The first column that the schema lacks, as an error.
    pub open spec fn missing(schema: MirroredSchema) -> Option<DecodeError> {
        lacking(
            schema,
            GROWTH_TABLE,
            seq![
                "entity_id",
                "end_timestamp",
                "growth_recipe_id",
            ],
        )
    }
}

/// Finds the columns of `growth_state`.
pub fn resolve_growth_cols(schema: &MirroredSchema) -> (r: Result<GrowthCols, DecodeError>)
    ensures
        match r {
            Ok(c) => {
                &&& c.found(*schema)
                &&& GrowthCols::missing(*schema) is None
            },
            Err(e) => GrowthCols::missing(*schema) == Some(e),
        },
{
    let names: [&'static str; 3] = [
        "entity_id",
        "end_timestamp",
        "growth_recipe_id",
    ];
    assert(names@ =~= seq![
        "entity_id",
        "end_timestamp",
        "growth_recipe_id",
    ]);
    let at: Vec<usize> = find_fields(schema, GROWTH_TABLE, names.as_slice())?;
    Ok(
        GrowthCols {
            entity_id: at[0],
            end_timestamp: at[1],
            growth_recipe_id: at[2],
        },
    )
}

/// Positions of the columns of `resource_growth_timer`.
#[derive(Debug, Clone, Copy, PartialEq, Eq, Structural)]
pub struct ResourceGrowthTimerCols {
    pub entity_id: usize,
    pub scheduled_at: usize,
    pub growth_recipe_id: usize,
}

impl ResourceGrowthTimerCols {
    /// Whether a row with `n` columns has them all.
    pub open spec fn fit(self, n: nat) -> bool {
        &&& self.entity_id < n
        &&& self.scheduled_at < n
        &&& self.growth_recipe_id < n
    }

    /// The positions of the columns in the schema.
    pub open spec fn found(self, schema: MirroredSchema) -> bool {
        &&& columns(schema, RESOURCE_GROWTH_TIMER_TABLE) is Ok
        &&& self.fit(columns(schema, RESOURCE_GROWTH_TIMER_TABLE)->Ok_0.len())
        &&& stands_at(schema, RESOURCE_GROWTH_TIMER_TABLE, "entity_id", self.entity_id)
        &&& stands_at(schema, RESOURCE_GROWTH_TIMER_TABLE, "scheduled_at", self.scheduled_at)
        &&& stands_at(schema, RESOURCE_GROWTH_TIMER_TABLE, "growth_recipe_id", self.growth_recipe_id)
    }

    /// The first column that the schema lacks, as an error.
    pub open spec fn missing(schema: MirroredSchema) -> Option<DecodeError> {
        lacking(
            schema,
            RESOURCE_GROWTH_TIMER_TABLE,
            seq![
                "entity_id",
                "scheduled_at",
                "growth_recipe_id",
            ],
        )
    }
}

/// Finds the columns of `resource_growth_timer`.
pub fn resolve_resource_growth_timer_cols(schema: &MirroredSchema) -> (r: Result<ResourceGrowthTimerCols, DecodeError>)
    ensures
        match r {
            Ok(c) => {
                &&& c.found(*schema)
                &&& ResourceGrowthTimerCols::missing(*schema) is None
            },
            Err(e) => ResourceGrowthTimerCols::missing(*schema) == Some(e),
        },
{
    let names: [&'static str; 3] = [
        "entity_id",
        "scheduled_at",
        "growth_recipe_id",
    ];
    assert(names@ =~= seq![
        "entity_id",
        "scheduled_at",
        "growth_recipe_id",
    ]);
    let at: Vec<usize> = find_fields(schema, RESOURCE_GROWTH_TIMER_TABLE, names.as_slice())?;
    Ok(
        ResourceGrowthTimerCols {
            entity_id: at[0],
            scheduled_at: at[1],
            growth_recipe_id: at[2],
        },
    )
}

/// Positions of the columns of `storage_log_state`.
#[derive(Debug, Clone, Copy, PartialEq, Eq, Structural)]
pub struct StorageLogCols {
    pub id: usize,
    pub object_entity_id: usize,
    pub subject_entity_id: usize,
    pub subject_name: usize,
    pub data: usize,
    pub timestamp: usize,
    pub days_since_epoch: usize,
}

impl StorageLogCols {
    /// Whether a row with `n` columns has them all.
    pub open spec fn fit(self, n: nat) -> bool {
        &&& self.id < n
        &&& self.object_entity_id < n
        &&& self.subject_entity_id < n
        &&& self.subject_name < n
        &&& self.data < n
        &&& self.timestamp < n
        &&& self.days_since_epoch < n
    }

    /// The positions of the columns in the schema.
    pub open spec fn found(self, schema: MirroredSchema) -> bool {
        &&& columns(schema, STORAGE_LOG_TABLE) is Ok
        &&& self.fit(columns(schema, STORAGE_LOG_TABLE)->Ok_0.len())
        &&& stands_at(schema, STORAGE_LOG_TABLE, "id", self.id)
        &&& stands_at(schema, STORAGE_LOG_TABLE, "object_entity_id", self.object_entity_id)
        &&& stands_at(schema, STORAGE_LOG_TABLE, "subject_entity_id", self.subject_entity_id)
        &&& stands_at(schema, STORAGE_LOG_TABLE, "subject_name", self.subject_name)
        &&& stands_at(schema, STORAGE_LOG_TABLE, "data", self.data)
        &&& stands_at(schema, STORAGE_LOG_TABLE, "timestamp", self.timestamp)
        &&& stands_at(schema, STORAGE_LOG_TABLE, "days_since_epoch", self.days_since_epoch)
    }

    /// The first column that the schema lacks, as an error.
    pub open spec fn missing(schema: MirroredSchema) -> Option<DecodeError> {
        lacking(
            schema,
            STORAGE_LOG_TABLE,
            seq![
                "id",
                "object_entity_id",
                "subject_entity_id",
                "subject_name",
                "data",
                "timestamp",
                "days_since_epoch",
            ],
        )
    }
}

/// Finds the columns of `storage_log_state`.
pub fn resolve_storage_log_cols(schema: &MirroredSchema) -> (r: Result<StorageLogCols, DecodeError>)
    ensures
        match r {
            Ok(c) => {
                &&& c.found(*schema)
                &&& StorageLogCols::missing(*schema) is None
            },
            Err(e) => StorageLogCols::missing(*schema) == Some(e),
        },
{
    let names: [&'static str; 7] = [
        "id",
        "object_entity_id",
        "subject_entity_id",
        "subject_name",
        "data",
        "timestamp",
        "days_since_epoch",
    ];
    assert(names@ =~= seq![
        "id",
        "object_entity_id",
        "subject_entity_id",
        "subject_name",
        "data",
        "timestamp",
        "days_since_epoch",
    ]);
    let at: Vec<usize> = find_fields(schema, STORAGE_LOG_TABLE, names.as_slice())?;
    Ok(
        StorageLogCols {
            id: at[0],
            object_entity_id: at[1],
            subject_entity_id: at[2],
            subject_name: at[3],
            data: at[4],
            timestamp: at[5],
            days_since_epoch: at[6],
        },
    )
}

/// Positions of the columns of `dimension_network_state`.
#[derive(Debug, Clone, Copy, PartialEq, Eq, Structural)]
pub struct DimensionNetworkCols {
    pub entity_id: usize,
    pub building_id: usize,
    pub claim_entity_id: usize,
    pub rent_entity_id: usize,
    pub entrance_dimension_id: usize,
    pub is_collapsed: usize,
}

impl DimensionNetworkCols {
    /// Whether a row with `n` columns has them all.
    pub open spec fn fit(self, n: nat) -> bool {
        &&& self.entity_id < n
        &&& self.building_id < n
        &&& self.claim_entity_id < n
        &&& self.rent_entity_id < n
        &&& self.entrance_dimension_id < n
        &&& self.is_collapsed < n
    }

    /// The positions of the columns in the schema.
    pub open spec fn found(self, schema: MirroredSchema) -> bool {
        &&& columns(schema, DIMENSION_NETWORK_TABLE) is Ok
        &&& self.fit(columns(schema, DIMENSION_NETWORK_TABLE)->Ok_0.len())
        &&& stands_at(schema, DIMENSION_NETWORK_TABLE, "entity_id", self.entity_id)
        &&& stands_at(schema, DIMENSION_NETWORK_TABLE, "building_id", self.building_id)
        &&& stands_at(schema, DIMENSION_NETWORK_TABLE, "claim_entity_id", self.claim_entity_id)
        &&& stands_at(schema, DIMENSION_NETWORK_TABLE, "rent_entity_id", self.rent_entity_id)
        &&& stands_at(schema, DIMENSION_NETWORK_TABLE, "entrance_dimension_id", self.entrance_dimension_id)
        &&& stands_at(schema, DIMENSION_NETWORK_TABLE, "is_collapsed", self.is_collapsed)
    }

    /// The first column that the schema lacks, as an error.
    pub open spec fn missing(schema: MirroredSchema) -> Option<DecodeError> {
        lacking(
            schema,
            DIMENSION_NETWORK_TABLE,
            seq![
                "entity_id",
                "building_id",
                "claim_entity_id",
                "rent_entity_id",
                "entrance_dimension_id",
                "is_collapsed",
            ],
        )
    }
}

/// Finds the columns of `dimension_network_state`.
pub fn resolve_dimension_network_cols(schema: &MirroredSchema) -> (r: Result<DimensionNetworkCols, DecodeError>)
    ensures
        match r {
            Ok(c) => {
                &&& c.found(*schema)
                &&& DimensionNetworkCols::missing(*schema) is None
            },
            Err(e) => DimensionNetworkCols::missing(*schema) == Some(e),
        },
{
    let names: [&'static str; 6] = [
        "entity_id",
        "building_id",
        "claim_entity_id",
        "rent_entity_id",
        "entrance_dimension_id",
        "is_collapsed",
    ];
    assert(names@ =~= seq![
        "entity_id",
        "building_id",
        "claim_entity_id",
        "rent_entity_id",
        "entrance_dimension_id",
        "is_collapsed",
    ]);
    let at: Vec<usize> = find_fields(schema, DIMENSION_NETWORK_TABLE, names.as_slice())?;
    Ok(
        DimensionNetworkCols {
            entity_id: at[0],
            building_id: at[1],
            claim_entity_id: at[2],
            rent_entity_id: at[3],
            entrance_dimension_id: at[4],
            is_collapsed: at[5],
        },
    )
}

/// Positions of the columns of `player_username_state`.
#[derive(Debug, Clone, Copy, PartialEq, Eq, Structural)]
pub struct PlayerUsernameCols {
    pub entity_id: usize,
    pub username: usize,
}

impl PlayerUsernameCols {
    /// Whether a row with `n` columns has them all.
    pub open spec fn fit(self, n: nat) -> bool {
        &&& self.entity_id < n
        &&& self.username < n
    }

    /// The positions of the columns in the schema.
    pub open spec fn found(self, schema: MirroredSchema) -> bool {
        &&& columns(schema, PLAYER_USERNAME_TABLE) is Ok
        &&& self.fit(columns(schema, PLAYER_USERNAME_TABLE)->Ok_0.len())
        &&& stands_at(schema, PLAYER_USERNAME_TABLE, "entity_id", self.entity_id)
        &&& stands_at(schema, PLAYER_USERNAME_TABLE, "username", self.username)
    }

    /// The first column that the schema lacks, as an error.
    pub open spec fn missing(schema: MirroredSchema) -> Option<DecodeError> {
        lacking(
            schema,
            PLAYER_USERNAME_TABLE,
            seq![
                "entity_id",
                "username",
            ],
        )
    }
}

/// Finds the columns of `player_username_state`.
pub fn resolve_player_username_cols(schema: &MirroredSchema) -> (r: Result<PlayerUsernameCols, DecodeError>)
    ensures
        match r {
            Ok(c) => {
                &&& c.found(*schema)
                &&& PlayerUsernameCols::missing(*schema) is None
            },
            Err(e) => PlayerUsernameCols::missing(*schema) == Some(e),
        },
{
    let names: [&'static str; 2] = [
        "entity_id",
        "username",
    ];
    assert(names@ =~= seq![
        "entity_id",
        "username",
    ]);
    let at: Vec<usize> = find_fields(schema, PLAYER_USERNAME_TABLE, names.as_slice())?;
    Ok(
        PlayerUsernameCols {
            entity_id: at[0],
            username: at[1],
        },
    )
}

/// Positions of the columns of `player_state`.
#[derive(Debug, Clone, Copy, PartialEq, Eq, Structural)]
pub struct PlayerStateCols {
    pub entity_id: usize,
    pub sign_in_timestamp: usize,
    pub session_start_timestamp: usize,
    pub signed_in: usize,
}

impl PlayerStateCols {
    /// Whether a row with `n` columns has them all.
    pub open spec fn fit(self, n: nat) -> bool {
        &&& self.entity_id < n
        &&& self.sign_in_timestamp < n
        &&& self.session_start_timestamp < n
        &&& self.signed_in < n
    }

    /// The positions of the columns in the schema.
    pub open spec fn found(self, schema: MirroredSchema) -> bool {
        &&& columns(schema, PLAYER_STATE_TABLE) is Ok
        &&& self.fit(columns(schema, PLAYER_STATE_TABLE)->Ok_0.len())
        &&& stands_at(schema, PLAYER_STATE_TABLE, "entity_id", self.entity_id)
        &&& stands_at(schema, PLAYER_STATE_TABLE, "sign_in_timestamp", self.sign_in_timestamp)
        &&& stands_at(schema, PLAYER_STATE_TABLE, "session_start_timestamp", self.session_start_timestamp)
        &&& stands_at(schema, PLAYER_STATE_TABLE, "signed_in", self.signed_in)
    }

    /// The first column that the schema lacks, as an error.
    pub open spec fn missing(schema: MirroredSchema) -> Option<DecodeError> {
        lacking(
            schema,
            PLAYER_STATE_TABLE,
            seq![
                "entity_id",
                "sign_in_timestamp",
                "session_start_timestamp",
                "signed_in",
            ],
        )
    }
}

/// Finds the columns of `player_state`.
pub fn resolve_player_state_cols(schema: &MirroredSchema) -> (r: Result<PlayerStateCols, DecodeError>)
    ensures
        match r {
            Ok(c) => {
                &&& c.found(*schema)
                &&& PlayerStateCols::missing(*schema) is None
            },
            Err(e) => PlayerStateCols::missing(*schema) == Some(e),
        },
{
    let names: [&'static str; 4] = [
        "entity_id",
        "sign_in_timestamp",
        "session_start_timestamp",
        "signed_in",
    ];
    assert(names@ =~= seq![
        "entity_id",
        "sign_in_timestamp",
        "session_start_timestamp",
        "signed_in",
    ]);
    let at: Vec<usize> = find_fields(schema, PLAYER_STATE_TABLE, names.as_slice())?;
    Ok(
        PlayerStateCols {
            entity_id: at[0],
            sign_in_timestamp: at[1],
            session_start_timestamp: at[2],
            signed_in: at[3],
        },
    )
}

/// Positions of the columns of `mobile_entity_state`.
#[derive(Debug, Clone, Copy, PartialEq, Eq, Structural)]
pub struct MobileEntityCols {
    pub entity_id: usize,
    pub timestamp: usize,
    pub location_x: usize,
    pub location_z: usize,
    pub destination_x: usize,
    pub destination_z: usize,
    pub dimension: usize,
    pub is_walking: usize,
}

impl MobileEntityCols {
    /// Whether a row with `n` columns has them all.
    pub open spec fn fit(self, n: nat) -> bool {
        &&& self.entity_id < n
        &&& self.timestamp < n
        &&& self.location_x < n
        &&& self.location_z < n
        &&& self.destination_x < n
        &&& self.destination_z < n
        &&& self.dimension < n
        &&& self.is_walking < n
    }

    /// The positions of the columns in the schema.
    pub open spec fn found(self, schema: MirroredSchema) -> bool {
        &&& columns(schema, MOBILE_ENTITY_TABLE) is Ok
        &&& self.fit(columns(schema, MOBILE_ENTITY_TABLE)->Ok_0.len())
        &&& stands_at(schema, MOBILE_ENTITY_TABLE, "entity_id", self.entity_id)
        &&& stands_at(schema, MOBILE_ENTITY_TABLE, "timestamp", self.timestamp)
        &&& stands_at(schema, MOBILE_ENTITY_TABLE, "location_x", self.location_x)
        &&& stands_at(schema, MOBILE_ENTITY_TABLE, "location_z", self.location_z)
        &&& stands_at(schema, MOBILE_ENTITY_TABLE, "destination_x", self.destination_x)
        &&& stands_at(schema, MOBILE_ENTITY_TABLE, "destination_z", self.destination_z)
        &&& stands_at(schema, MOBILE_ENTITY_TABLE, "dimension", self.dimension)
        &&& stands_at(schema, MOBILE_ENTITY_TABLE, "is_walking", self.is_walking)
    }

    /// The first column that the schema lacks, as an error.
    pub open spec fn missing(schema: MirroredSchema) -> Option<DecodeError> {
        lacking(
            schema,
            MOBILE_ENTITY_TABLE,
            seq![
                "entity_id",
                "timestamp",
                "location_x",
                "location_z",
                "destination_x",
                "destination_z",
                "dimension",
                "is_walking",
            ],
        )
    }
}

/// Finds the columns of `mobile_entity_state`.
pub fn resolve_mobile_entity_cols(schema: &MirroredSchema) -> (r: Result<MobileEntityCols, DecodeError>)
    ensures
        match r {
            Ok(c) => {
                &&& c.found(*schema)
                &&& MobileEntityCols::missing(*schema) is None
            },
            Err(e) => MobileEntityCols::missing(*schema) == Some(e),
        },
{
    let names: [&'static str; 8] = [
        "entity_id",
        "timestamp",
        "location_x",
        "location_z",
        "destination_x",
        "destination_z",
        "dimension",
        "is_walking",
    ];
    assert(names@ =~= seq![
        "entity_id",
        "timestamp",
        "location_x",
        "location_z",
        "destination_x",
        "destination_z",
        "dimension",
        "is_walking",
    ]);
    let at: Vec<usize> = find_fields(schema, MOBILE_ENTITY_TABLE, names.as_slice())?;
    Ok(
        MobileEntityCols {
            entity_id: at[0],
            timestamp: at[1],
            location_x: at[2],
            location_z: at[3],
            destination_x: at[4],
            destination_z: at[5],
            dimension: at[6],
            is_walking: at[7],
        },
    )
}

/// Positions of the columns of `stamina_state`.
#[derive(Debug, Clone, Copy, PartialEq, Eq, Structural)]
pub struct StaminaCols {
    pub entity_id: usize,
    pub last_stamina_decrease_timestamp: usize,
    pub stamina: usize,
}

impl StaminaCols {
    /// Whether a row with `n` columns has them all.
    pub open spec fn fit(self, n: nat) -> bool {
        &&& self.entity_id < n
        &&& self.last_stamina_decrease_timestamp < n
        &&& self.stamina < n
    }

    /// The positions of the columns in the schema.
    pub open spec fn found(self, schema: MirroredSchema) -> bool {
        &&& columns(schema, STAMINA_TABLE) is Ok
        &&& self.fit(columns(schema, STAMINA_TABLE)->Ok_0.len())
        &&& stands_at(schema, STAMINA_TABLE, "entity_id", self.entity_id)
        &&& stands_at(schema, STAMINA_TABLE, "last_stamina_decrease_timestamp", self.last_stamina_decrease_timestamp)
        &&& stands_at(schema, STAMINA_TABLE, "stamina", self.stamina)
    }

    /// The first column that the schema lacks, as an error.
    pub open spec fn missing(schema: MirroredSchema) -> Option<DecodeError> {
        lacking(
            schema,
            STAMINA_TABLE,
            seq![
                "entity_id",
                "last_stamina_decrease_timestamp",
                "stamina",
            ],
        )
    }
}

/// Finds the columns of `stamina_state`.
pub fn resolve_stamina_cols(schema: &MirroredSchema) -> (r: Result<StaminaCols, DecodeError>)
    ensures
        match r {
            Ok(c) => {
                &&& c.found(*schema)
                &&& StaminaCols::missing(*schema) is None
            },
            Err(e) => StaminaCols::missing(*schema) == Some(e),
        },
{
    let names: [&'static str; 3] = [
        "entity_id",
        "last_stamina_decrease_timestamp",
        "stamina",
    ];
    assert(names@ =~= seq![
        "entity_id",
        "last_stamina_decrease_timestamp",
        "stamina",
    ]);
    let at: Vec<usize> = find_fields(schema, STAMINA_TABLE, names.as_slice())?;
    Ok(
        StaminaCols {
            entity_id: at[0],
            last_stamina_decrease_timestamp: at[1],
            stamina: at[2],
        },
    )
}

/// Positions of the columns of `active_buff_state`.
#[derive(Debug, Clone, Copy, PartialEq, Eq, Structural)]
pub struct ActiveBuffCols {
    pub entity_id: usize,
    pub active_buffs: usize,
}

impl ActiveBuffCols {
    /// Whether a row with `n` columns has them all.
    pub open spec fn fit(self, n: nat) -> bool {
        &&& self.entity_id < n
        &&& self.active_buffs < n
    }

    /// The positions of the columns in the schema.
    pub open spec fn found(self, schema: MirroredSchema) -> bool {
        &&& columns(schema, ACTIVE_BUFF_TABLE) is Ok
        &&& self.fit(columns(schema, ACTIVE_BUFF_TABLE)->Ok_0.len())
        &&& stands_at(schema, ACTIVE_BUFF_TABLE, "entity_id", self.entity_id)
        &&& stands_at(schema, ACTIVE_BUFF_TABLE, "active_buffs", self.active_buffs)
    }

    /// The first column that the schema lacks, as an error.
    pub open spec fn missing(schema: MirroredSchema) -> Option<DecodeError> {
        lacking(
            schema,
            ACTIVE_BUFF_TABLE,
            seq![
                "entity_id",
                "active_buffs",
            ],
        )
    }
}

/// Finds the columns of `active_buff_state`.
pub fn resolve_active_buff_cols(schema: &MirroredSchema) -> (r: Result<ActiveBuffCols, DecodeError>)
    ensures
        match r {
            Ok(c) => {
                &&& c.found(*schema)
                &&& ActiveBuffCols::missing(*schema) is None
            },
            Err(e) => ActiveBuffCols::missing(*schema) == Some(e),
        },
{
    let names: [&'static str; 2] = [
        "entity_id",
        "active_buffs",
    ];
    assert(names@ =~= seq![
        "entity_id",
        "active_buffs",
    ]);
    let at: Vec<usize> = find_fields(schema, ACTIVE_BUFF_TABLE, names.as_slice())?;
    Ok(
        ActiveBuffCols {
            entity_id: at[0],
            active_buffs: at[1],
        },
    )
}

/// Positions of the columns of `player_action_state`.
#[derive(Debug, Clone, Copy, PartialEq, Eq, Structural)]
pub struct PlayerActionCols {
    pub auto_id: usize,
    pub entity_id: usize,
    pub start_time: usize,
    pub duration: usize,
    pub target: usize,
    pub recipe_id: usize,
    pub action_type: usize,
    pub layer: usize,
    pub last_action_result: usize,
    pub client_cancel: usize,
}

impl PlayerActionCols {
    /// Whether a row with `n` columns has them all.
    pub open spec fn fit(self, n: nat) -> bool {
        &&& self.auto_id < n
        &&& self.entity_id < n
        &&& self.start_time < n
        &&& self.duration < n
        &&& self.target < n
        &&& self.recipe_id < n
        &&& self.action_type < n
        &&& self.layer < n
        &&& self.last_action_result < n
        &&& self.client_cancel < n
    }

    /// The positions of the columns in the schema.
    pub open spec fn found(self, schema: MirroredSchema) -> bool {
        &&& columns(schema, PLAYER_ACTION_TABLE) is Ok
        &&& self.fit(columns(schema, PLAYER_ACTION_TABLE)->Ok_0.len())
        &&& stands_at(schema, PLAYER_ACTION_TABLE, "auto_id", self.auto_id)
        &&& stands_at(schema, PLAYER_ACTION_TABLE, "entity_id", self.entity_id)
        &&& stands_at(schema, PLAYER_ACTION_TABLE, "start_time", self.start_time)
        &&& stands_at(schema, PLAYER_ACTION_TABLE, "duration", self.duration)
        &&& stands_at(schema, PLAYER_ACTION_TABLE, "target", self.target)
        &&& stands_at(schema, PLAYER_ACTION_TABLE, "recipe_id", self.recipe_id)
        &&& stands_at(schema, PLAYER_ACTION_TABLE, "action_type", self.action_type)
        &&& stands_at(schema, PLAYER_ACTION_TABLE, "layer", self.layer)
        &&& stands_at(schema, PLAYER_ACTION_TABLE, "last_action_result", self.last_action_result)
        &&& stands_at(schema, PLAYER_ACTION_TABLE, "client_cancel", self.client_cancel)
    }

    /// The first column that the schema lacks, as an error.
    pub open spec fn missing(schema: MirroredSchema) -> Option<DecodeError> {
        lacking(
            schema,
            PLAYER_ACTION_TABLE,
            seq![
                "auto_id",
                "entity_id",
                "start_time",
                "duration",
                "target",
                "recipe_id",
                "action_type",
                "layer",
                "last_action_result",
                "client_cancel",
            ],
        )
    }
}

/// Finds the columns of `player_action_state`.
pub fn resolve_player_action_cols(schema: &MirroredSchema) -> (r: Result<PlayerActionCols, DecodeError>)
    ensures
        match r {
            Ok(c) => {
                &&& c.found(*schema)
                &&& PlayerActionCols::missing(*schema) is None
            },
            Err(e) => PlayerActionCols::missing(*schema) == Some(e),
        },
{
    let names: [&'static str; 10] = [
        "auto_id",
        "entity_id",
        "start_time",
        "duration",
        "target",
        "recipe_id",
        "action_type",
        "layer",
        "last_action_result",
        "client_cancel",
    ];
    assert(names@ =~= seq![
        "auto_id",
        "entity_id",
        "start_time",
        "duration",
        "target",
        "recipe_id",
        "action_type",
        "layer",
        "last_action_result",
        "client_cancel",
    ]);
    let at: Vec<usize> = find_fields(schema, PLAYER_ACTION_TABLE, names.as_slice())?;
    Ok(
        PlayerActionCols {
            auto_id: at[0],
            entity_id: at[1],
            start_time: at[2],
            duration: at[3],
            target: at[4],
            recipe_id: at[5],
            action_type: at[6],
            layer: at[7],
            last_action_result: at[8],
            client_cancel: at[9],
        },
    )
}

/// Positions of the columns of `resource_health_state`.
#[derive(Debug, Clone, Copy, PartialEq, Eq, Structural)]
pub struct ResourceHealthCols {
    pub entity_id: usize,
    pub health: usize,
}

impl ResourceHealthCols {
    /// Whether a row with `n` columns has them all.
    pub open spec fn fit(self, n: nat) -> bool {
        &&& self.entity_id < n
        &&& self.health < n
    }

    /// The positions of the columns in the schema.
    pub open spec fn found(self, schema: MirroredSchema) -> bool {
        &&& columns(schema, RESOURCE_HEALTH_TABLE) is Ok
        &&& self.fit(columns(schema, RESOURCE_HEALTH_TABLE)->Ok_0.len())
        &&& stands_at(schema, RESOURCE_HEALTH_TABLE, "entity_id", self.entity_id)
        &&& stands_at(schema, RESOURCE_HEALTH_TABLE, "health", self.health)
    }

    /// The first column that the schema lacks, as an error.
    pub open spec fn missing(schema: MirroredSchema) -> Option<DecodeError> {
        lacking(
            schema,
            RESOURCE_HEALTH_TABLE,
            seq![
                "entity_id",
                "health",
            ],
        )
    }
}

/// Finds the columns of `resource_health_state`.
pub fn resolve_resource_health_cols(schema: &MirroredSchema) -> (r: Result<ResourceHealthCols, DecodeError>)
    ensures
        match r {
            Ok(c) => {
                &&& c.found(*schema)
                &&& ResourceHealthCols::missing(*schema) is None
            },
            Err(e) => ResourceHealthCols::missing(*schema) == Some(e),
        },
{
    let names: [&'static str; 2] = [
        "entity_id",
        "health",
    ];
    assert(names@ =~= seq![
        "entity_id",
        "health",
    ]);
    let at: Vec<usize> = find_fields(schema, RESOURCE_HEALTH_TABLE, names.as_slice())?;
    Ok(
        ResourceHealthCols {
            entity_id: at[0],
            health: at[1],
        },
    )
}

/// Positions of the columns of `resource_desc`.
#[derive(Debug, Clone, Copy, PartialEq, Eq, Structural)]
pub struct ResourceDescCols {
    pub id: usize,
    pub name: usize,
    pub max_health: usize,
    pub despawn_time: usize,
    pub on_destroy_yield_resource_id: usize,
    pub scheduled_respawn_time: usize,
}

impl ResourceDescCols {
    /// Whether a row with `n` columns has them all.
    pub open spec fn fit(self, n: nat) -> bool {
        &&& self.id < n
        &&& self.name < n
        &&& self.max_health < n
        &&& self.despawn_time < n
        &&& self.on_destroy_yield_resource_id < n
        &&& self.scheduled_respawn_time < n
    }

    /// The positions of the columns in the schema.
    pub open spec fn found(self, schema: MirroredSchema) -> bool {
        &&& columns(schema, RESOURCE_DESC_TABLE) is Ok
        &&& self.fit(columns(schema, RESOURCE_DESC_TABLE)->Ok_0.len())
        &&& stands_at(schema, RESOURCE_DESC_TABLE, "id", self.id)
        &&& stands_at(schema, RESOURCE_DESC_TABLE, "name", self.name)
        &&& stands_at(schema, RESOURCE_DESC_TABLE, "max_health", self.max_health)
        &&& stands_at(schema, RESOURCE_DESC_TABLE, "despawn_time", self.despawn_time)
        &&& stands_at(schema, RESOURCE_DESC_TABLE, "on_destroy_yield_resource_id", self.on_destroy_yield_resource_id)
        &&& stands_at(schema, RESOURCE_DESC_TABLE, "scheduled_respawn_time", self.scheduled_respawn_time)
    }

    /// The first column that the schema lacks, as an error.
    pub open spec fn missing(schema: MirroredSchema) -> Option<DecodeError> {
        lacking(
            schema,
            RESOURCE_DESC_TABLE,
            seq![
                "id",
                "name",
                "max_health",
                "despawn_time",
                "on_destroy_yield_resource_id",
                "scheduled_respawn_time",
            ],
        )
    }
}

/// Finds the columns of `resource_desc`.
pub fn resolve_resource_desc_cols(schema: &MirroredSchema) -> (r: Result<ResourceDescCols, DecodeError>)
    ensures
        match r {
            Ok(c) => {
                &&& c.found(*schema)
                &&& ResourceDescCols::missing(*schema) is None
            },
            Err(e) => ResourceDescCols::missing(*schema) == Some(e),
        },
{
    let names: [&'static str; 6] = [
        "id",
        "name",
        "max_health",
        "despawn_time",
        "on_destroy_yield_resource_id",
        "scheduled_respawn_time",
    ];
    assert(names@ =~= seq![
        "id",
        "name",
        "max_health",
        "despawn_time",
        "on_destroy_yield_resource_id",
        "scheduled_respawn_time",
    ]);
    let at: Vec<usize> = find_fields(schema, RESOURCE_DESC_TABLE, names.as_slice())?;
    Ok(
        ResourceDescCols {
            id: at[0],
            name: at[1],
            max_health: at[2],
            despawn_time: at[3],
            on_destroy_yield_resource_id: at[4],
            scheduled_respawn_time: at[5],
        },
    )
}

/// Positions of the columns of `extraction_recipe_desc`.
#[derive(Debug, Clone, Copy, PartialEq, Eq, Structural)]
pub struct ExtractionRecipeCols {
    pub id: usize,
    pub resource_id: usize,
}

impl ExtractionRecipeCols {
    /// Whether a row with `n` columns has them all.
    pub open spec fn fit(self, n: nat) -> bool {
        &&& self.id < n
        &&& self.resource_id < n
    }

    /// The positions of the columns in the schema.
    pub open spec fn found(self, schema: MirroredSchema) -> bool {
        &&& columns(schema, EXTRACTION_RECIPE_TABLE) is Ok
        &&& self.fit(columns(schema, EXTRACTION_RECIPE_TABLE)->Ok_0.len())
        &&& stands_at(schema, EXTRACTION_RECIPE_TABLE, "id", self.id)
        &&& stands_at(schema, EXTRACTION_RECIPE_TABLE, "resource_id", self.resource_id)
    }

    /// The first column that the schema lacks, as an error.
    pub open spec fn missing(schema: MirroredSchema) -> Option<DecodeError> {
        lacking(
            schema,
            EXTRACTION_RECIPE_TABLE,
            seq![
                "id",
                "resource_id",
            ],
        )
    }
}

/// Finds the columns of `extraction_recipe_desc`.
pub fn resolve_extraction_recipe_cols(schema: &MirroredSchema) -> (r: Result<ExtractionRecipeCols, DecodeError>)
    ensures
        match r {
            Ok(c) => {
                &&& c.found(*schema)
                &&& ExtractionRecipeCols::missing(*schema) is None
            },
            Err(e) => ExtractionRecipeCols::missing(*schema) == Some(e),
        },
{
    let names: [&'static str; 2] = [
        "id",
        "resource_id",
    ];
    assert(names@ =~= seq![
        "id",
        "resource_id",
    ]);
    let at: Vec<usize> = find_fields(schema, EXTRACTION_RECIPE_TABLE, names.as_slice())?;
    Ok(
        ExtractionRecipeCols {
            id: at[0],
            resource_id: at[1],
        },
    )
}

/// Positions of the columns of `character_stat_desc`.
#[derive(Debug, Clone, Copy, PartialEq, Eq, Structural)]
pub struct CharacterStatDescCols {
    pub stat_type: usize,
    pub name: usize,
}

impl CharacterStatDescCols {
    /// Whether a row with `n` columns has them all.
    pub open spec fn fit(self, n: nat) -> bool {
        &&& self.stat_type < n
        &&& self.name < n
    }

    /// The positions of the columns in the schema.
    pub open spec fn found(self, schema: MirroredSchema) -> bool {
        &&& columns(schema, CHARACTER_STAT_DESC_TABLE) is Ok
        &&& self.fit(columns(schema, CHARACTER_STAT_DESC_TABLE)->Ok_0.len())
        &&& stands_at(schema, CHARACTER_STAT_DESC_TABLE, "stat_type", self.stat_type)
        &&& stands_at(schema, CHARACTER_STAT_DESC_TABLE, "name", self.name)
    }

    /// The first column that the schema lacks, as an error.
    pub open spec fn missing(schema: MirroredSchema) -> Option<DecodeError> {
        lacking(
            schema,
            CHARACTER_STAT_DESC_TABLE,
            seq![
                "stat_type",
                "name",
            ],
        )
    }
}

/// Finds the columns of `character_stat_desc`.
pub fn resolve_character_stat_desc_cols(schema: &MirroredSchema) -> (r: Result<CharacterStatDescCols, DecodeError>)
    ensures
        match r {
            Ok(c) => {
                &&& c.found(*schema)
                &&& CharacterStatDescCols::missing(*schema) is None
            },
            Err(e) => CharacterStatDescCols::missing(*schema) == Some(e),
        },
{
    let names: [&'static str; 2] = [
        "stat_type",
        "name",
    ];
    assert(names@ =~= seq![
        "stat_type",
        "name",
    ]);
    let at: Vec<usize> = find_fields(schema, CHARACTER_STAT_DESC_TABLE, names.as_slice())?;
    Ok(
        CharacterStatDescCols {
            stat_type: at[0],
            name: at[1],
        },
    )
}

/// Positions of the columns of `character_stats_state`.
#[derive(Debug, Clone, Copy, PartialEq, Eq, Structural)]
pub struct CharacterStatsCols {
    pub entity_id: usize,
    pub values: usize,
}

impl CharacterStatsCols {
    /// Whether a row with `n` columns has them all.
    pub open spec fn fit(self, n: nat) -> bool {
        &&& self.entity_id < n
        &&& self.values < n
    }

    /// The positions of the columns in the schema.
    pub open spec fn found(self, schema: MirroredSchema) -> bool {
        &&& columns(schema, CHARACTER_STATS_TABLE) is Ok
        &&& self.fit(columns(schema, CHARACTER_STATS_TABLE)->Ok_0.len())
        &&& stands_at(schema, CHARACTER_STATS_TABLE, "entity_id", self.entity_id)
        &&& stands_at(schema, CHARACTER_STATS_TABLE, "values", self.values)
    }

    /// The first column that the schema lacks, as an error.
    pub open spec fn missing(schema: MirroredSchema) -> Option<DecodeError> {
        lacking(
            schema,
            CHARACTER_STATS_TABLE,
            seq![
                "entity_id",
                "values",
            ],
        )
    }
}

/// Finds the columns of `character_stats_state`.
pub fn resolve_character_stats_cols(schema: &MirroredSchema) -> (r: Result<CharacterStatsCols, DecodeError>)
    ensures
        match r {
            Ok(c) => {
                &&& c.found(*schema)
                &&& CharacterStatsCols::missing(*schema) is None
            },
            Err(e) => CharacterStatsCols::missing(*schema) == Some(e),
        },
{
    let names: [&'static str; 2] = [
        "entity_id",
        "values",
    ];
    assert(names@ =~= seq![
        "entity_id",
        "values",
    ]);
    let at: Vec<usize> = find_fields(schema, CHARACTER_STATS_TABLE, names.as_slice())?;
    Ok(
        CharacterStatsCols {
            entity_id: at[0],
            values: at[1],
        },
    )
}

/// Positions of the columns of `deployable_state_v2`.
#[derive(Debug, Clone, Copy, PartialEq, Eq, Structural)]
pub struct DeployableCols {
    pub entity_id: usize,
    pub owner_id: usize,
    pub claim_entity_id: usize,
    pub deployable_description_id: usize,
    pub nickname: usize,
}

impl DeployableCols {
    /// Whether a row with `n` columns has them all.
    pub open spec fn fit(self, n: nat) -> bool {
        &&& self.entity_id < n
        &&& self.owner_id < n
        &&& self.claim_entity_id < n
        &&& self.deployable_description_id < n
        &&& self.nickname < n
    }

    /// The positions of the columns in the schema.
    pub open spec fn found(self, schema: MirroredSchema) -> bool {
        &&& columns(schema, DEPLOYABLE_TABLE) is Ok
        &&& self.fit(columns(schema, DEPLOYABLE_TABLE)->Ok_0.len())
        &&& stands_at(schema, DEPLOYABLE_TABLE, "entity_id", self.entity_id)
        &&& stands_at(schema, DEPLOYABLE_TABLE, "owner_id", self.owner_id)
        &&& stands_at(schema, DEPLOYABLE_TABLE, "claim_entity_id", self.claim_entity_id)
        &&& stands_at(schema, DEPLOYABLE_TABLE, "deployable_description_id", self.deployable_description_id)
        &&& stands_at(schema, DEPLOYABLE_TABLE, "nickname", self.nickname)
    }

    /// The first column that the schema lacks, as an error.
    pub open spec fn missing(schema: MirroredSchema) -> Option<DecodeError> {
        lacking(
            schema,
            DEPLOYABLE_TABLE,
            seq![
                "entity_id",
                "owner_id",
                "claim_entity_id",
                "deployable_description_id",
                "nickname",
            ],
        )
    }
}

/// Finds the columns of `deployable_state_v2`.
pub fn resolve_deployable_cols(schema: &MirroredSchema) -> (r: Result<DeployableCols, DecodeError>)
    ensures
        match r {
            Ok(c) => {
                &&& c.found(*schema)
                &&& DeployableCols::missing(*schema) is None
            },
            Err(e) => DeployableCols::missing(*schema) == Some(e),
        },
{
    let names: [&'static str; 5] = [
        "entity_id",
        "owner_id",
        "claim_entity_id",
        "deployable_description_id",
        "nickname",
    ];
    assert(names@ =~= seq![
        "entity_id",
        "owner_id",
        "claim_entity_id",
        "deployable_description_id",
        "nickname",
    ]);
    let at: Vec<usize> = find_fields(schema, DEPLOYABLE_TABLE, names.as_slice())?;
    Ok(
        DeployableCols {
            entity_id: at[0],
            owner_id: at[1],
            claim_entity_id: at[2],
            deployable_description_id: at[3],
            nickname: at[4],
        },
    )
}

/// Positions of the columns of `deployable_desc`.
#[derive(Debug, Clone, Copy, PartialEq, Eq, Structural)]
pub struct DeployableDescCols {
    pub id: usize,
    pub name: usize,
    pub deployable_type: usize,
}

impl DeployableDescCols {
    /// Whether a row with `n` columns has them all.
    pub open spec fn fit(self, n: nat) -> bool {
        &&& self.id < n
        &&& self.name < n
        &&& self.deployable_type < n
    }

    /// The positions of the columns in the schema.
    pub open spec fn found(self, schema: MirroredSchema) -> bool {
        &&& columns(schema, DEPLOYABLE_DESC_TABLE) is Ok
        &&& self.fit(columns(schema, DEPLOYABLE_DESC_TABLE)->Ok_0.len())
        &&& stands_at(schema, DEPLOYABLE_DESC_TABLE, "id", self.id)
        &&& stands_at(schema, DEPLOYABLE_DESC_TABLE, "name", self.name)
        &&& stands_at(schema, DEPLOYABLE_DESC_TABLE, "deployable_type", self.deployable_type)
    }

    /// The first column that the schema lacks, as an error.
    pub open spec fn missing(schema: MirroredSchema) -> Option<DecodeError> {
        lacking(
            schema,
            DEPLOYABLE_DESC_TABLE,
            seq![
                "id",
                "name",
                "deployable_type",
            ],
        )
    }
}

/// Finds the columns of `deployable_desc`.
pub fn resolve_deployable_desc_cols(schema: &MirroredSchema) -> (r: Result<DeployableDescCols, DecodeError>)
    ensures
        match r {
            Ok(c) => {
                &&& c.found(*schema)
                &&& DeployableDescCols::missing(*schema) is None
            },
            Err(e) => DeployableDescCols::missing(*schema) == Some(e),
        },
{
    let names: [&'static str; 3] = [
        "id",
        "name",
        "deployable_type",
    ];
    assert(names@ =~= seq![
        "id",
        "name",
        "deployable_type",
    ]);
    let at: Vec<usize> = find_fields(schema, DEPLOYABLE_DESC_TABLE, names.as_slice())?;
    Ok(
        DeployableDescCols {
            id: at[0],
            name: at[1],
            deployable_type: at[2],
        },
    )
}

/// Positions of the columns of `player_housing_state`.
#[derive(Debug, Clone, Copy, PartialEq, Eq, Structural)]
pub struct PlayerHousingCols {
    pub entity_id: usize,
    pub entrance_building_entity_id: usize,
    pub network_entity_id: usize,
    pub rank: usize,
    pub is_empty: usize,
    pub region_index: usize,
}

impl PlayerHousingCols {
    /// Whether a row with `n` columns has them all.
    pub open spec fn fit(self, n: nat) -> bool {
        &&& self.entity_id < n
        &&& self.entrance_building_entity_id < n
        &&& self.network_entity_id < n
        &&& self.rank < n
        &&& self.is_empty < n
        &&& self.region_index < n
    }

    /// The positions of the columns in the schema.
    pub open spec fn found(self, schema: MirroredSchema) -> bool {
        &&& columns(schema, PLAYER_HOUSING_TABLE) is Ok
        &&& self.fit(columns(schema, PLAYER_HOUSING_TABLE)->Ok_0.len())
        &&& stands_at(schema, PLAYER_HOUSING_TABLE, "entity_id", self.entity_id)
        &&& stands_at(schema, PLAYER_HOUSING_TABLE, "entrance_building_entity_id", self.entrance_building_entity_id)
        &&& stands_at(schema, PLAYER_HOUSING_TABLE, "network_entity_id", self.network_entity_id)
        &&& stands_at(schema, PLAYER_HOUSING_TABLE, "rank", self.rank)
        &&& stands_at(schema, PLAYER_HOUSING_TABLE, "is_empty", self.is_empty)
        &&& stands_at(schema, PLAYER_HOUSING_TABLE, "region_index", self.region_index)
    }

    /// The first column that the schema lacks, as an error.
    pub open spec fn missing(schema: MirroredSchema) -> Option<DecodeError> {
        lacking(
            schema,
            PLAYER_HOUSING_TABLE,
            seq![
                "entity_id",
                "entrance_building_entity_id",
                "network_entity_id",
                "rank",
                "is_empty",
                "region_index",
            ],
        )
    }
}

/// Finds the columns of `player_housing_state`.
pub fn resolve_player_housing_cols(schema: &MirroredSchema) -> (r: Result<PlayerHousingCols, DecodeError>)
    ensures
        match r {
            Ok(c) => {
                &&& c.found(*schema)
                &&& PlayerHousingCols::missing(*schema) is None
            },
            Err(e) => PlayerHousingCols::missing(*schema) == Some(e),
        },
{
    let names: [&'static str; 6] = [
        "entity_id",
        "entrance_building_entity_id",
        "network_entity_id",
        "rank",
        "is_empty",
        "region_index",
    ];
    assert(names@ =~= seq![
        "entity_id",
        "entrance_building_entity_id",
        "network_entity_id",
        "rank",
        "is_empty",
        "region_index",
    ]);
    let at: Vec<usize> = find_fields(schema, PLAYER_HOUSING_TABLE, names.as_slice())?;
    Ok(
        PlayerHousingCols {
            entity_id: at[0],
            entrance_building_entity_id: at[1],
            network_entity_id: at[2],
            rank: at[3],
            is_empty: at[4],
            region_index: at[5],
        },
    )
}

/// Positions of the columns of `player_housing_desc`.
#[derive(Debug, Clone, Copy, PartialEq, Eq, Structural)]
pub struct PlayerHousingDescCols {
    pub secondary_knowledge_id: usize,
    pub rank: usize,
    pub name: usize,
}

impl PlayerHousingDescCols {
    /// Whether a row with `n` columns has them all.
    pub open spec fn fit(self, n: nat) -> bool {
        &&& self.secondary_knowledge_id < n
        &&& self.rank < n
        &&& self.name < n
    }

    /// The positions of the columns in the schema.
    pub open spec fn found(self, schema: MirroredSchema) -> bool {
        &&& columns(schema, PLAYER_HOUSING_DESC_TABLE) is Ok
        &&& self.fit(columns(schema, PLAYER_HOUSING_DESC_TABLE)->Ok_0.len())
        &&& stands_at(schema, PLAYER_HOUSING_DESC_TABLE, "secondary_knowledge_id", self.secondary_knowledge_id)
        &&& stands_at(schema, PLAYER_HOUSING_DESC_TABLE, "rank", self.rank)
        &&& stands_at(schema, PLAYER_HOUSING_DESC_TABLE, "name", self.name)
    }

    /// The first column that the schema lacks, as an error.
    pub open spec fn missing(schema: MirroredSchema) -> Option<DecodeError> {
        lacking(
            schema,
            PLAYER_HOUSING_DESC_TABLE,
            seq![
                "secondary_knowledge_id",
                "rank",
                "name",
            ],
        )
    }
}

/// Finds the columns of `player_housing_desc`.
pub fn resolve_player_housing_desc_cols(schema: &MirroredSchema) -> (r: Result<PlayerHousingDescCols, DecodeError>)
    ensures
        match r {
            Ok(c) => {
                &&& c.found(*schema)
                &&& PlayerHousingDescCols::missing(*schema) is None
            },
            Err(e) => PlayerHousingDescCols::missing(*schema) == Some(e),
        },
{
    let names: [&'static str; 3] = [
        "secondary_knowledge_id",
        "rank",
        "name",
    ];
    assert(names@ =~= seq![
        "secondary_knowledge_id",
        "rank",
        "name",
    ]);
    let at: Vec<usize> = find_fields(schema, PLAYER_HOUSING_DESC_TABLE, names.as_slice())?;
    Ok(
        PlayerHousingDescCols {
            secondary_knowledge_id: at[0],
            rank: at[1],
            name: at[2],
        },
    )
}

/// Positions of the columns of `rent_state`.
#[derive(Debug, Clone, Copy, PartialEq, Eq, Structural)]
pub struct RentCols {
    pub entity_id: usize,
    pub dimension_network_id: usize,
    pub claim_entity_id: usize,
    pub white_list: usize,
    pub active: usize,
}

impl RentCols {
    /// Whether a row with `n` columns has them all.
    pub open spec fn fit(self, n: nat) -> bool {
        &&& self.entity_id < n
        &&& self.dimension_network_id < n
        &&& self.claim_entity_id < n
        &&& self.white_list < n
        &&& self.active < n
    }

    /// The positions of the columns in the schema.
    pub open spec fn found(self, schema: MirroredSchema) -> bool {
        &&& columns(schema, RENT_TABLE) is Ok
        &&& self.fit(columns(schema, RENT_TABLE)->Ok_0.len())
        &&& stands_at(schema, RENT_TABLE, "entity_id", self.entity_id)
        &&& stands_at(schema, RENT_TABLE, "dimension_network_id", self.dimension_network_id)
        &&& stands_at(schema, RENT_TABLE, "claim_entity_id", self.claim_entity_id)
        &&& stands_at(schema, RENT_TABLE, "white_list", self.white_list)
        &&& stands_at(schema, RENT_TABLE, "active", self.active)
    }

    /// The first column that the schema lacks, as an error.
    pub open spec fn missing(schema: MirroredSchema) -> Option<DecodeError> {
        lacking(
            schema,
            RENT_TABLE,
            seq![
                "entity_id",
                "dimension_network_id",
                "claim_entity_id",
                "white_list",
                "active",
            ],
        )
    }
}

/// Finds the columns of `rent_state`.
pub fn resolve_rent_cols(schema: &MirroredSchema) -> (r: Result<RentCols, DecodeError>)
    ensures
        match r {
            Ok(c) => {
                &&& c.found(*schema)
                &&& RentCols::missing(*schema) is None
            },
            Err(e) => RentCols::missing(*schema) == Some(e),
        },
{
    let names: [&'static str; 5] = [
        "entity_id",
        "dimension_network_id",
        "claim_entity_id",
        "white_list",
        "active",
    ];
    assert(names@ =~= seq![
        "entity_id",
        "dimension_network_id",
        "claim_entity_id",
        "white_list",
        "active",
    ]);
    let at: Vec<usize> = find_fields(schema, RENT_TABLE, names.as_slice())?;
    Ok(
        RentCols {
            entity_id: at[0],
            dimension_network_id: at[1],
            claim_entity_id: at[2],
            white_list: at[3],
            active: at[4],
        },
    )
}

/// Positions of the columns of every table that is held.
#[derive(Debug, Clone, Copy)]
pub struct ColMaps {
    pub claim: ClaimCols,
    pub claim_local: ClaimLocalCols,
    pub claim_member: ClaimMemberCols,
    pub claim_tech_state: ClaimTechStateCols,
    pub claim_tech_desc: ClaimTechDescCols,
    pub claim_tile_cost: ClaimTileCostCols,
    pub building: BuildingCols,
    pub inventory: InventoryCols,
    pub building_desc: BuildingDescCols,
    pub building_nickname: BuildingNicknameCols,
    pub location: LocationCols,
    pub dimension_network: DimensionNetworkCols,
    pub player_username: PlayerUsernameCols,
    pub player_state: PlayerStateCols,
    pub mobile_entity: MobileEntityCols,
    pub deployable: DeployableCols,
    pub deployable_desc: DeployableDescCols,
    pub player_housing: PlayerHousingCols,
    pub player_housing_desc: PlayerHousingDescCols,
    pub rent: RentCols,
    pub experience: ExperienceCols,
    pub skill_desc: SkillDescCols,
    pub progressive_action: ProgressiveActionCols,
    pub public_progressive_action: PublicProgressiveActionCols,
    pub passive_craft: PassiveCraftCols,
    pub crafting_recipe_desc: CraftingRecipeDescCols,
    pub resource: ResourceCols,
    pub growth: GrowthCols,
    pub growth_timer: ResourceGrowthTimerCols,
    pub storage_log: StorageLogCols,
    pub stamina: StaminaCols,
    pub active_buff: ActiveBuffCols,
    pub player_action: PlayerActionCols,
    pub resource_health: ResourceHealthCols,
    pub resource_desc: ResourceDescCols,
    pub extraction_recipe: ExtractionRecipeCols,
    pub character_stat_desc: CharacterStatDescCols,
    pub character_stats: CharacterStatsCols,
}

impl ColMaps {
    /// The columns of the schema with their names.
    pub open spec fn found(self, schema: MirroredSchema) -> bool {
        &&& self.claim.found(schema)
        &&& self.claim_local.found(schema)
        &&& self.claim_member.found(schema)
        &&& self.claim_tech_state.found(schema)
        &&& self.claim_tech_desc.found(schema)
        &&& self.claim_tile_cost.found(schema)
        &&& self.building.found(schema)
        &&& self.inventory.found(schema)
        &&& self.building_desc.found(schema)
        &&& self.building_nickname.found(schema)
        &&& self.location.found(schema)
        &&& self.dimension_network.found(schema)
        &&& self.player_username.found(schema)
        &&& self.player_state.found(schema)
        &&& self.mobile_entity.found(schema)
        &&& self.deployable.found(schema)
        &&& self.deployable_desc.found(schema)
        &&& self.player_housing.found(schema)
        &&& self.player_housing_desc.found(schema)
        &&& self.rent.found(schema)
        &&& self.experience.found(schema)
        &&& self.skill_desc.found(schema)
        &&& self.progressive_action.found(schema)
        &&& self.public_progressive_action.found(schema)
        &&& self.passive_craft.found(schema)
        &&& self.crafting_recipe_desc.found(schema)
        &&& self.resource.found(schema)
        &&& self.growth.found(schema)
        &&& self.growth_timer.found(schema)
        &&& self.storage_log.found(schema)
        &&& self.stamina.found(schema)
        &&& self.active_buff.found(schema)
        &&& self.player_action.found(schema)
        &&& self.resource_health.found(schema)
        &&& self.resource_desc.found(schema)
        &&& self.extraction_recipe.found(schema)
        &&& self.character_stat_desc.found(schema)
        &&& self.character_stats.found(schema)
    }

    /// The first column that the schema lacks, as an error.
    pub open spec fn missing(schema: MirroredSchema) -> Option<DecodeError> {
        let claim = ClaimCols::missing(schema);
        let claim_local = ClaimLocalCols::missing(schema);
        let claim_member = ClaimMemberCols::missing(schema);
        let claim_tech_state = ClaimTechStateCols::missing(schema);
        let claim_tech_desc = ClaimTechDescCols::missing(schema);
        let claim_tile_cost = ClaimTileCostCols::missing(schema);
        let building = BuildingCols::missing(schema);
        let inventory = InventoryCols::missing(schema);
        let building_desc = BuildingDescCols::missing(schema);
        let building_nickname = BuildingNicknameCols::missing(schema);
        let location = LocationCols::missing(schema);
        let dimension_network = DimensionNetworkCols::missing(schema);
        let player_username = PlayerUsernameCols::missing(schema);
        let player_state = PlayerStateCols::missing(schema);
        let mobile_entity = MobileEntityCols::missing(schema);
        let deployable = DeployableCols::missing(schema);
        let deployable_desc = DeployableDescCols::missing(schema);
        let player_housing = PlayerHousingCols::missing(schema);
        let player_housing_desc = PlayerHousingDescCols::missing(schema);
        let rent = RentCols::missing(schema);
        let experience = ExperienceCols::missing(schema);
        let skill_desc = SkillDescCols::missing(schema);
        let progressive_action = ProgressiveActionCols::missing(schema);
        let public_progressive_action = PublicProgressiveActionCols::missing(schema);
        let passive_craft = PassiveCraftCols::missing(schema);
        let crafting_recipe_desc = CraftingRecipeDescCols::missing(schema);
        let resource = ResourceCols::missing(schema);
        let growth = GrowthCols::missing(schema);
        let growth_timer = ResourceGrowthTimerCols::missing(schema);
        let storage_log = StorageLogCols::missing(schema);
        let stamina = StaminaCols::missing(schema);
        let active_buff = ActiveBuffCols::missing(schema);
        let player_action = PlayerActionCols::missing(schema);
        let resource_health = ResourceHealthCols::missing(schema);
        let resource_desc = ResourceDescCols::missing(schema);
        let extraction_recipe = ExtractionRecipeCols::missing(schema);
        let character_stat_desc = CharacterStatDescCols::missing(schema);
        let character_stats = CharacterStatsCols::missing(schema);
        let group0 =
            either(claim, either(claim_local, either(claim_member, either(claim_tech_state, claim_tech_desc))));
        let group1 =
            either(claim_tile_cost, either(building, either(inventory, either(building_desc, building_nickname))));
        let group2 =
            either(location, either(dimension_network, either(player_username, either(player_state, mobile_entity))));
        let group3 =
            either(deployable, either(deployable_desc, either(player_housing, either(player_housing_desc, rent))));
        let group4 =
            either(experience, either(skill_desc, either(progressive_action, either(public_progressive_action, passive_craft))));
        let group5 = either(crafting_recipe_desc, either(resource, either(growth, either(growth_timer, storage_log))));
        let group6 =
            either(stamina, either(active_buff, either(player_action, either(resource_health, resource_desc))));
        let group7 = either(extraction_recipe, either(character_stat_desc, character_stats));
        either(group0, either(group1, either(group2, either(group3, either(group4, either(group5, either(group6, group7)))))))
    }
}

/// Finds the columns of every table that is held. A table or a column that is
/// not there is an error.
pub fn resolve_cols(schema: &MirroredSchema) -> (r: Result<ColMaps, DecodeError>)
    ensures
        match r {
            Ok(c) => c.found(*schema) && ColMaps::missing(*schema) is None,
            Err(e) => ColMaps::missing(*schema) == Some(e),
        },
{
    let claim: ClaimCols = resolve_claim_cols(schema)?;
    let claim_local: ClaimLocalCols = resolve_claim_local_cols(schema)?;
    let claim_member: ClaimMemberCols = resolve_claim_member_cols(schema)?;
    let claim_tech_state: ClaimTechStateCols = resolve_claim_tech_state_cols(schema)?;
    let claim_tech_desc: ClaimTechDescCols = resolve_claim_tech_desc_cols(schema)?;
    let claim_tile_cost: ClaimTileCostCols = resolve_claim_tile_cost_cols(schema)?;
    let building: BuildingCols = resolve_building_cols(schema)?;
    let inventory: InventoryCols = resolve_inventory_cols(schema)?;
    let building_desc: BuildingDescCols = resolve_building_desc_cols(schema)?;
    let building_nickname: BuildingNicknameCols = resolve_building_nickname_cols(schema)?;
    let location: LocationCols = resolve_location_cols(schema)?;
    let dimension_network: DimensionNetworkCols = resolve_dimension_network_cols(schema)?;
    let player_username: PlayerUsernameCols = resolve_player_username_cols(schema)?;
    let player_state: PlayerStateCols = resolve_player_state_cols(schema)?;
    let mobile_entity: MobileEntityCols = resolve_mobile_entity_cols(schema)?;
    let deployable: DeployableCols = resolve_deployable_cols(schema)?;
    let deployable_desc: DeployableDescCols = resolve_deployable_desc_cols(schema)?;
    let player_housing: PlayerHousingCols = resolve_player_housing_cols(schema)?;
    let player_housing_desc: PlayerHousingDescCols = resolve_player_housing_desc_cols(schema)?;
    let rent: RentCols = resolve_rent_cols(schema)?;
    let experience: ExperienceCols = resolve_experience_cols(schema)?;
    let skill_desc: SkillDescCols = resolve_skill_desc_cols(schema)?;
    let progressive_action: ProgressiveActionCols = resolve_progressive_action_cols(schema)?;
    let public_progressive_action: PublicProgressiveActionCols = resolve_public_progressive_action_cols(schema)?;
    let passive_craft: PassiveCraftCols = resolve_passive_craft_cols(schema)?;
    let crafting_recipe_desc: CraftingRecipeDescCols = resolve_crafting_recipe_desc_cols(schema)?;
    let resource: ResourceCols = resolve_resource_cols(schema)?;
    let growth: GrowthCols = resolve_growth_cols(schema)?;
    let growth_timer: ResourceGrowthTimerCols = resolve_resource_growth_timer_cols(schema)?;
    let storage_log: StorageLogCols = resolve_storage_log_cols(schema)?;
    let stamina: StaminaCols = resolve_stamina_cols(schema)?;
    let active_buff: ActiveBuffCols = resolve_active_buff_cols(schema)?;
    let player_action: PlayerActionCols = resolve_player_action_cols(schema)?;
    let resource_health: ResourceHealthCols = resolve_resource_health_cols(schema)?;
    let resource_desc: ResourceDescCols = resolve_resource_desc_cols(schema)?;
    let extraction_recipe: ExtractionRecipeCols = resolve_extraction_recipe_cols(schema)?;
    let character_stat_desc: CharacterStatDescCols = resolve_character_stat_desc_cols(schema)?;
    let character_stats: CharacterStatsCols = resolve_character_stats_cols(schema)?;
    Ok(
        ColMaps {
            claim,
            claim_local,
            claim_member,
            claim_tech_state,
            claim_tech_desc,
            claim_tile_cost,
            building,
            inventory,
            building_desc,
            building_nickname,
            location,
            dimension_network,
            player_username,
            player_state,
            mobile_entity,
            deployable,
            deployable_desc,
            player_housing,
            player_housing_desc,
            rent,
            experience,
            skill_desc,
            progressive_action,
            public_progressive_action,
            passive_craft,
            crafting_recipe_desc,
            resource,
            growth,
            growth_timer,
            storage_log,
            stamina,
            active_buff,
            player_action,
            resource_health,
            resource_desc,
            extraction_recipe,
            character_stat_desc,
            character_stats,
        },
    )
}

/// Positions of the columns of the tables that lead from a name to a player.
/// Each may be absent: a database without the table resolves less.
#[derive(Debug, Clone, Copy, PartialEq, Eq)]
pub struct BitmeGlobalCols {
    /// `entity_id` and `username_lowercase`.
    pub lowercase_username: Option<(usize, usize)>,
    /// `entity_id` and `identity`.
    pub user_state: Option<(usize, usize)>,
    /// `identity` and `region_id`.
    pub user_region: Option<(usize, usize)>,
    /// `id`, `host` and `module`.
    pub region_connection: Option<(usize, usize, usize)>,
    /// `id` and `player_facing_name`.
    pub world_region_name: Option<(usize, usize)>,
    /// `entity_id`.
    pub signed_in_player: Option<usize>,
}

impl Default for BitmeGlobalCols {
    fn default() -> (r: Self)
        ensures
            r == (BitmeGlobalCols {
                lowercase_username: None,
                user_state: None,
                user_region: None,
                region_connection: None,
                world_region_name: None,
                signed_in_player: None,
            }),
    {
        BitmeGlobalCols {
            lowercase_username: None,
            user_state: None,
            user_region: None,
            region_connection: None,
            world_region_name: None,
            signed_in_player: None,
        }
    }
}

/// Two columns of a table that may be absent.
pub open spec fn pair_found(
    schema: MirroredSchema,
    table: &'static str,
    a: &'static str,
    b: &'static str,
    at: Option<(usize, usize)>,
) -> bool {
    match at {
        None => !has_table(schema, table),
        Some(p) => {
            &&& stands_at(schema, table, a, p.0)
            &&& stands_at(schema, table, b, p.1)
            &&& p.0 < columns(schema, table)->Ok_0.len()
            &&& p.1 < columns(schema, table)->Ok_0.len()
        },
    }
}

/// The first column that a table lacks, where the table is there.
pub open spec fn lacking_if_any(
    schema: MirroredSchema,
    table: &'static str,
    names: Seq<&'static str>,
) -> Option<DecodeError> {
    if has_table(schema, table) {
        lacking(schema, table, names)
    } else {
        None
    }
}

impl BitmeGlobalCols {
    /// The positions of the columns in the schema; none for a table that is
    /// not there.
    pub open spec fn found(self, schema: MirroredSchema) -> bool {
        &&& pair_found(
            schema,
            PLAYER_LOWERCASE_USERNAME_TABLE,
            "entity_id",
            "username_lowercase",
            self.lowercase_username,
        )
        &&& pair_found(schema, USER_STATE_TABLE, "entity_id", "identity", self.user_state)
        &&& pair_found(schema, USER_REGION_STATE_TABLE, "identity", "region_id", self.user_region)
        &&& pair_found(schema, WORLD_REGION_NAME_TABLE, "id", "player_facing_name", self.world_region_name)
        &&& match self.region_connection {
            None => !has_table(schema, REGION_CONNECTION_INFO_TABLE),
            Some(p) => {
                &&& stands_at(schema, REGION_CONNECTION_INFO_TABLE, "id", p.0)
                &&& stands_at(schema, REGION_CONNECTION_INFO_TABLE, "host", p.1)
                &&& stands_at(schema, REGION_CONNECTION_INFO_TABLE, "module", p.2)
                &&& p.0 < columns(schema, REGION_CONNECTION_INFO_TABLE)->Ok_0.len()
                &&& p.1 < columns(schema, REGION_CONNECTION_INFO_TABLE)->Ok_0.len()
                &&& p.2 < columns(schema, REGION_CONNECTION_INFO_TABLE)->Ok_0.len()
            },
        }
        &&& match self.signed_in_player {
            None => !has_table(schema, SIGNED_IN_PLAYER_TABLE),
            Some(p) => {
                &&& stands_at(schema, SIGNED_IN_PLAYER_TABLE, "entity_id", p)
                &&& p < columns(schema, SIGNED_IN_PLAYER_TABLE)->Ok_0.len()
            },
        }
    }

    /// The first column that a table lacks, as an error.
    pub open spec fn missing(schema: MirroredSchema) -> Option<DecodeError> {
        let region_connection = lacking_if_any(schema, REGION_CONNECTION_INFO_TABLE, seq!["id", "host", "module"]);
        let signed_in = lacking_if_any(schema, SIGNED_IN_PLAYER_TABLE, seq!["entity_id"]);
        let username = lacking_if_any(
            schema,
            PLAYER_LOWERCASE_USERNAME_TABLE,
            seq!["entity_id", "username_lowercase"],
        );
        let user = lacking_if_any(schema, USER_STATE_TABLE, seq!["entity_id", "identity"]);
        let user_region = lacking_if_any(schema, USER_REGION_STATE_TABLE, seq!["identity", "region_id"]);
        let name = lacking_if_any(schema, WORLD_REGION_NAME_TABLE, seq!["id", "player_facing_name"]);
        either(
            region_connection,
            either(signed_in, either(username, either(user, either(user_region, name)))),
        )
    }
}

/// Two columns of a table that may be absent.
fn find_pair(schema: &MirroredSchema, table: &'static str, a: &'static str, b: &'static str) -> (r: Result<
    Option<(usize, usize)>,
    DecodeError,
>)
    ensures
        match r {
            Ok(p) => pair_found(*schema, table, a, b, p) && lacking_if_any(*schema, table, seq![a, b]) is None,
            Err(e) => lacking_if_any(*schema, table, seq![a, b]) == Some(e),
        },
{
    let names: [&'static str; 2] = [a, b];
    assert(names@ =~= seq![a, b]);
    let at = match find_fields_if_any(schema, table, names.as_slice())? {
        None => {
            return Ok(None);
        },
        Some(at) => at,
    };
    Ok(Some((at[0], at[1])))
}

/// Finds the columns of the tables that lead from a name to a player. A table
/// that is not there is no error; a table without one of the columns is.
pub fn resolve_bitme_global_cols(schema: &MirroredSchema) -> (r: Result<BitmeGlobalCols, DecodeError>)
    ensures
        match r {
            Ok(c) => c.found(*schema) && BitmeGlobalCols::missing(*schema) is None,
            Err(e) => BitmeGlobalCols::missing(*schema) == Some(e),
        },
{
    let connection_names: [&'static str; 3] = ["id", "host", "module"];
    assert(connection_names@ =~= seq!["id", "host", "module"]);
    let region_connection: Option<(usize, usize, usize)> = match find_fields_if_any(
        schema,
        REGION_CONNECTION_INFO_TABLE,
        connection_names.as_slice(),
    )? {
        None => None,
        Some(at) => {
            Some((at[0], at[1], at[2]))
        },
    };
    let signed_in_names: [&'static str; 1] = ["entity_id"];
    assert(signed_in_names@ =~= seq!["entity_id"]);
    let signed_in_player: Option<usize> = match find_fields_if_any(
        schema,
        SIGNED_IN_PLAYER_TABLE,
        signed_in_names.as_slice(),
    )? {
        None => None,
        Some(at) => {
            Some(at[0])
        },
    };
    let lowercase_username: Option<(usize, usize)> = find_pair(
        schema,
        PLAYER_LOWERCASE_USERNAME_TABLE,
        "entity_id",
        "username_lowercase",
    )?;
    let user_state: Option<(usize, usize)> = find_pair(schema, USER_STATE_TABLE, "entity_id", "identity")?;
    let user_region: Option<(usize, usize)> = find_pair(schema, USER_REGION_STATE_TABLE, "identity", "region_id")?;
    let world_region_name: Option<(usize, usize)> = find_pair(
        schema,
        WORLD_REGION_NAME_TABLE,
        "id",
        "player_facing_name",
    )?;
    Ok(
        BitmeGlobalCols {
            lowercase_username,
            user_state,
            user_region,
            region_connection,
            world_region_name,
            signed_in_player,
        },
    )
}

} // verus!
