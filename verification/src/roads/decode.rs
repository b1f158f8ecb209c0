//! Columns and rows of the tables behind the road maps.

use vstd::prelude::*;

use crate::cell::{
    bool_in, cell_bool, cell_f32, cell_i16, cell_i32, cell_string, cell_u16, cell_u32, cell_u64, cell_u8, consumed_in,
    decode_consumed_stacks, decode_i16_array, decode_u8_array, i16_in, i16s_in, i32_in, single_in, text_in, u16_in,
    u32_in, u64_in, u8_in, u8s_in, Cell, Single,
};
use crate::schema::{columns, either, failed, find_fields, lacking, stands_at, DecodeError, MirroredSchema};

verus! {

pub const TERRAIN_CHUNK_TABLE: &'static str = "terrain_chunk_state";

pub const PAVED_TILE_TABLE: &'static str = "paved_tile_state";

pub const CLAIM_TILE_TABLE: &'static str = "claim_tile_state";

pub const CLAIM_STATE_TABLE: &'static str = "claim_state";

pub const LOCATION_TABLE: &'static str = "location_state";

pub const PAVING_TILE_DESC_TABLE: &'static str = "paving_tile_desc";

pub const TERRAFORM_RECIPE_DESC_TABLE: &'static str = "terraform_recipe_desc";

pub const WORLD_REGION_STATE_TABLE: &'static str = "world_region_state";

pub const REGION_NAME_TABLE: &'static str = "region_name_state";

/// Positions of the columns of `terrain_chunk_state`.
#[derive(Debug, Clone, Copy, PartialEq, Eq, Structural)]
pub struct TerrainChunkCols {
    pub chunk_x: usize,
    pub chunk_z: usize,
    pub dimension: usize,
    pub elevations: usize,
    pub original_elevations: usize,
    pub water_levels: usize,
    pub water_body_types: usize,
}

impl TerrainChunkCols {
    /// Whether a row with `n` columns has them all.
    pub open spec fn fit(self, n: nat) -> bool {
        &&& self.chunk_x < n
        &&& self.chunk_z < n
        &&& self.dimension < n
        &&& self.elevations < n
        &&& self.original_elevations < n
        &&& self.water_levels < n
        &&& self.water_body_types < n
    }

    /// The positions of the columns in the schema.
    pub open spec fn found(self, schema: MirroredSchema) -> bool {
        &&& columns(schema, TERRAIN_CHUNK_TABLE) is Ok
        &&& self.fit(columns(schema, TERRAIN_CHUNK_TABLE)->Ok_0.len())
        &&& stands_at(schema, TERRAIN_CHUNK_TABLE, "chunk_x", self.chunk_x)
        &&& stands_at(schema, TERRAIN_CHUNK_TABLE, "chunk_z", self.chunk_z)
        &&& stands_at(schema, TERRAIN_CHUNK_TABLE, "dimension", self.dimension)
        &&& stands_at(schema, TERRAIN_CHUNK_TABLE, "elevations", self.elevations)
        &&& stands_at(schema, TERRAIN_CHUNK_TABLE, "original_elevations", self.original_elevations)
        &&& stands_at(schema, TERRAIN_CHUNK_TABLE, "water_levels", self.water_levels)
        &&& stands_at(schema, TERRAIN_CHUNK_TABLE, "water_body_types", self.water_body_types)
    }

    /// The first column that the schema lacks, as an error.
    pub open spec fn missing(schema: MirroredSchema) -> Option<DecodeError> {
        lacking(
            schema,
            TERRAIN_CHUNK_TABLE,
            seq![
                "chunk_x",
                "chunk_z",
                "dimension",
                "elevations",
                "original_elevations",
                "water_levels",
                "water_body_types",
            ],
        )
    }
}

/// Finds the columns of `terrain_chunk_state`.
pub fn resolve_terrain_chunk_cols(schema: &MirroredSchema) -> (r: Result<TerrainChunkCols, DecodeError>)
    ensures
        match r {
            Ok(c) => {
                &&& c.found(*schema)
                &&& TerrainChunkCols::missing(*schema) is None
            },
            Err(e) => TerrainChunkCols::missing(*schema) == Some(e),
        },
{
    let names: [&'static str; 7] = [
        "chunk_x",
        "chunk_z",
        "dimension",
        "elevations",
        "original_elevations",
        "water_levels",
        "water_body_types",
    ];
    assert(names@ =~= seq![
        "chunk_x",
        "chunk_z",
        "dimension",
        "elevations",
        "original_elevations",
        "water_levels",
        "water_body_types",
    ]);
    let at: Vec<usize> = find_fields(schema, TERRAIN_CHUNK_TABLE, names.as_slice())?;
    Ok(
        TerrainChunkCols {
            chunk_x: at[0],
            chunk_z: at[1],
            dimension: at[2],
            elevations: at[3],
            original_elevations: at[4],
            water_levels: at[5],
            water_body_types: at[6],
        },
    )
}

/// Positions of the columns of `paved_tile_state`.
#[derive(Debug, Clone, Copy, PartialEq, Eq, Structural)]
pub struct PavedTileCols {
    pub entity_id: usize,
    pub tile_type_id: usize,
}

impl PavedTileCols {
    /// Whether a row with `n` columns has them all.
    pub open spec fn fit(self, n: nat) -> bool {
        &&& self.entity_id < n
        &&& self.tile_type_id < n
    }

    /// The positions of the columns in the schema.
    pub open spec fn found(self, schema: MirroredSchema) -> bool {
        &&& columns(schema, PAVED_TILE_TABLE) is Ok
        &&& self.fit(columns(schema, PAVED_TILE_TABLE)->Ok_0.len())
        &&& stands_at(schema, PAVED_TILE_TABLE, "entity_id", self.entity_id)
        &&& stands_at(schema, PAVED_TILE_TABLE, "tile_type_id", self.tile_type_id)
    }

    /// The first column that the schema lacks, as an error.
    pub open spec fn missing(schema: MirroredSchema) -> Option<DecodeError> {
        lacking(
            schema,
            PAVED_TILE_TABLE,
            seq![
                "entity_id",
                "tile_type_id",
            ],
        )
    }
}

/// Finds the columns of `paved_tile_state`.
pub fn resolve_paved_tile_cols(schema: &MirroredSchema) -> (r: Result<PavedTileCols, DecodeError>)
    ensures
        match r {
            Ok(c) => {
                &&& c.found(*schema)
                &&& PavedTileCols::missing(*schema) is None
            },
            Err(e) => PavedTileCols::missing(*schema) == Some(e),
        },
{
    let names: [&'static str; 2] = [
        "entity_id",
        "tile_type_id",
    ];
    assert(names@ =~= seq![
        "entity_id",
        "tile_type_id",
    ]);
    let at: Vec<usize> = find_fields(schema, PAVED_TILE_TABLE, names.as_slice())?;
    Ok(
        PavedTileCols {
            entity_id: at[0],
            tile_type_id: at[1],
        },
    )
}

/// Positions of the columns of `claim_tile_state`.
#[derive(Debug, Clone, Copy, PartialEq, Eq, Structural)]
pub struct ClaimTileCols {
    pub entity_id: usize,
    pub claim_id: usize,
}

impl ClaimTileCols {
    /// Whether a row with `n` columns has them all.
    pub open spec fn fit(self, n: nat) -> bool {
        &&& self.entity_id < n
        &&& self.claim_id < n
    }

    /// The positions of the columns in the schema.
    pub open spec fn found(self, schema: MirroredSchema) -> bool {
        &&& columns(schema, CLAIM_TILE_TABLE) is Ok
        &&& self.fit(columns(schema, CLAIM_TILE_TABLE)->Ok_0.len())
        &&& stands_at(schema, CLAIM_TILE_TABLE, "entity_id", self.entity_id)
        &&& stands_at(schema, CLAIM_TILE_TABLE, "claim_id", self.claim_id)
    }

    /// The first column that the schema lacks, as an error.
    pub open spec fn missing(schema: MirroredSchema) -> Option<DecodeError> {
        lacking(
            schema,
            CLAIM_TILE_TABLE,
            seq![
                "entity_id",
                "claim_id",
            ],
        )
    }
}

/// Finds the columns of `claim_tile_state`.
pub fn resolve_claim_tile_cols(schema: &MirroredSchema) -> (r: Result<ClaimTileCols, DecodeError>)
    ensures
        match r {
            Ok(c) => {
                &&& c.found(*schema)
                &&& ClaimTileCols::missing(*schema) is None
            },
            Err(e) => ClaimTileCols::missing(*schema) == Some(e),
        },
{
    let names: [&'static str; 2] = [
        "entity_id",
        "claim_id",
    ];
    assert(names@ =~= seq![
        "entity_id",
        "claim_id",
    ]);
    let at: Vec<usize> = find_fields(schema, CLAIM_TILE_TABLE, names.as_slice())?;
    Ok(
        ClaimTileCols {
            entity_id: at[0],
            claim_id: at[1],
        },
    )
}

/// Positions of the columns of `claim_state`.
#[derive(Debug, Clone, Copy, PartialEq, Eq, Structural)]
pub struct ClaimStateRoadsCols {
    pub entity_id: usize,
    pub neutral: usize,
}

impl ClaimStateRoadsCols {
    /// Whether a row with `n` columns has them all.
    pub open spec fn fit(self, n: nat) -> bool {
        &&& self.entity_id < n
        &&& self.neutral < n
    }

    /// The positions of the columns in the schema.
    pub open spec fn found(self, schema: MirroredSchema) -> bool {
        &&& columns(schema, CLAIM_STATE_TABLE) is Ok
        &&& self.fit(columns(schema, CLAIM_STATE_TABLE)->Ok_0.len())
        &&& stands_at(schema, CLAIM_STATE_TABLE, "entity_id", self.entity_id)
        &&& stands_at(schema, CLAIM_STATE_TABLE, "neutral", self.neutral)
    }

    /// The first column that the schema lacks, as an error.
    pub open spec fn missing(schema: MirroredSchema) -> Option<DecodeError> {
        lacking(
            schema,
            CLAIM_STATE_TABLE,
            seq![
                "entity_id",
                "neutral",
            ],
        )
    }
}

/// Finds the columns of `claim_state`.
pub fn resolve_claim_state_roads_cols(schema: &MirroredSchema) -> (r: Result<ClaimStateRoadsCols, DecodeError>)
    ensures
        match r {
            Ok(c) => {
                &&& c.found(*schema)
                &&& ClaimStateRoadsCols::missing(*schema) is None
            },
            Err(e) => ClaimStateRoadsCols::missing(*schema) == Some(e),
        },
{
    let names: [&'static str; 2] = [
        "entity_id",
        "neutral",
    ];
    assert(names@ =~= seq![
        "entity_id",
        "neutral",
    ]);
    let at: Vec<usize> = find_fields(schema, CLAIM_STATE_TABLE, names.as_slice())?;
    Ok(
        ClaimStateRoadsCols {
            entity_id: at[0],
            neutral: at[1],
        },
    )
}

/// Positions of the columns of `location_state`.
#[derive(Debug, Clone, Copy, PartialEq, Eq, Structural)]
pub struct LocationRoadsCols {
    pub entity_id: usize,
    pub x: usize,
    pub z: usize,
    pub dimension: usize,
}

impl LocationRoadsCols {
    /// Whether a row with `n` columns has them all.
    pub open spec fn fit(self, n: nat) -> bool {
        &&& self.entity_id < n
        &&& self.x < n
        &&& self.z < n
        &&& self.dimension < n
    }

    /// The positions of the columns in the schema.
    pub open spec fn found(self, schema: MirroredSchema) -> bool {
        &&& columns(schema, LOCATION_TABLE) is Ok
        &&& self.fit(columns(schema, LOCATION_TABLE)->Ok_0.len())
        &&& stands_at(schema, LOCATION_TABLE, "entity_id", self.entity_id)
        &&& stands_at(schema, LOCATION_TABLE, "x", self.x)
        &&& stands_at(schema, LOCATION_TABLE, "z", self.z)
        &&& stands_at(schema, LOCATION_TABLE, "dimension", self.dimension)
    }

    /// The first column that the schema lacks, as an error.
    pub open spec fn missing(schema: MirroredSchema) -> Option<DecodeError> {
        lacking(
            schema,
            LOCATION_TABLE,
            seq![
                "entity_id",
                "x",
                "z",
                "dimension",
            ],
        )
    }
}

/// Finds the columns of `location_state`.
pub fn resolve_location_roads_cols(schema: &MirroredSchema) -> (r: Result<LocationRoadsCols, DecodeError>)
    ensures
        match r {
            Ok(c) => {
                &&& c.found(*schema)
                &&& LocationRoadsCols::missing(*schema) is None
            },
            Err(e) => LocationRoadsCols::missing(*schema) == Some(e),
        },
{
    let names: [&'static str; 4] = [
        "entity_id",
        "x",
        "z",
        "dimension",
    ];
    assert(names@ =~= seq![
        "entity_id",
        "x",
        "z",
        "dimension",
    ]);
    let at: Vec<usize> = find_fields(schema, LOCATION_TABLE, names.as_slice())?;
    Ok(
        LocationRoadsCols {
            entity_id: at[0],
            x: at[1],
            z: at[2],
            dimension: at[3],
        },
    )
}

/// Positions of the columns of `paving_tile_desc`.
#[derive(Debug, Clone, Copy, PartialEq, Eq, Structural)]
pub struct PavingDescCols {
    pub id: usize,
    pub name: usize,
    pub paving_duration: usize,
    pub tier: usize,
    pub input_cargo_id: usize,
    pub consumed_item_stacks: usize,
}

impl PavingDescCols {
    /// Whether a row with `n` columns has them all.
    pub open spec fn fit(self, n: nat) -> bool {
        &&& self.id < n
        &&& self.name < n
        &&& self.paving_duration < n
        &&& self.tier < n
        &&& self.input_cargo_id < n
        &&& self.consumed_item_stacks < n
    }

    /// The positions of the columns in the schema.
    pub open spec fn found(self, schema: MirroredSchema) -> bool {
        &&& columns(schema, PAVING_TILE_DESC_TABLE) is Ok
        &&& self.fit(columns(schema, PAVING_TILE_DESC_TABLE)->Ok_0.len())
        &&& stands_at(schema, PAVING_TILE_DESC_TABLE, "id", self.id)
        &&& stands_at(schema, PAVING_TILE_DESC_TABLE, "name", self.name)
        &&& stands_at(schema, PAVING_TILE_DESC_TABLE, "paving_duration", self.paving_duration)
        &&& stands_at(schema, PAVING_TILE_DESC_TABLE, "tier", self.tier)
        &&& stands_at(schema, PAVING_TILE_DESC_TABLE, "input_cargo_id", self.input_cargo_id)
        &&& stands_at(schema, PAVING_TILE_DESC_TABLE, "consumed_item_stacks", self.consumed_item_stacks)
    }

    /// The first column that the schema lacks, as an error.
    pub open spec fn missing(schema: MirroredSchema) -> Option<DecodeError> {
        lacking(
            schema,
            PAVING_TILE_DESC_TABLE,
            seq![
                "id",
                "name",
                "paving_duration",
                "tier",
                "input_cargo_id",
                "consumed_item_stacks",
            ],
        )
    }
}

/// Finds the columns of `paving_tile_desc`.
pub fn resolve_paving_desc_cols(schema: &MirroredSchema) -> (r: Result<PavingDescCols, DecodeError>)
    ensures
        match r {
            Ok(c) => {
                &&& c.found(*schema)
                &&& PavingDescCols::missing(*schema) is None
            },
            Err(e) => PavingDescCols::missing(*schema) == Some(e),
        },
{
    let names: [&'static str; 6] = [
        "id",
        "name",
        "paving_duration",
        "tier",
        "input_cargo_id",
        "consumed_item_stacks",
    ];
    assert(names@ =~= seq![
        "id",
        "name",
        "paving_duration",
        "tier",
        "input_cargo_id",
        "consumed_item_stacks",
    ]);
    let at: Vec<usize> = find_fields(schema, PAVING_TILE_DESC_TABLE, names.as_slice())?;
    Ok(
        PavingDescCols {
            id: at[0],
            name: at[1],
            paving_duration: at[2],
            tier: at[3],
            input_cargo_id: at[4],
            consumed_item_stacks: at[5],
        },
    )
}

/// Positions of the columns of `terraform_recipe_desc`.
#[derive(Debug, Clone, Copy, PartialEq, Eq, Structural)]
pub struct TerraformRecipeCols {
    pub difference: usize,
    pub actions_count: usize,
    pub stamina_per_action: usize,
    pub time_per_action: usize,
}

impl TerraformRecipeCols {
    /// Whether a row with `n` columns has them all.
    pub open spec fn fit(self, n: nat) -> bool {
        &&& self.difference < n
        &&& self.actions_count < n
        &&& self.stamina_per_action < n
        &&& self.time_per_action < n
    }

    /// The positions of the columns in the schema.
    pub open spec fn found(self, schema: MirroredSchema) -> bool {
        &&& columns(schema, TERRAFORM_RECIPE_DESC_TABLE) is Ok
        &&& self.fit(columns(schema, TERRAFORM_RECIPE_DESC_TABLE)->Ok_0.len())
        &&& stands_at(schema, TERRAFORM_RECIPE_DESC_TABLE, "difference", self.difference)
        &&& stands_at(schema, TERRAFORM_RECIPE_DESC_TABLE, "actions_count", self.actions_count)
        &&& stands_at(schema, TERRAFORM_RECIPE_DESC_TABLE, "stamina_per_action", self.stamina_per_action)
        &&& stands_at(schema, TERRAFORM_RECIPE_DESC_TABLE, "time_per_action", self.time_per_action)
    }

    /// The first column that the schema lacks, as an error.
    pub open spec fn missing(schema: MirroredSchema) -> Option<DecodeError> {
        lacking(
            schema,
            TERRAFORM_RECIPE_DESC_TABLE,
            seq![
                "difference",
                "actions_count",
                "stamina_per_action",
                "time_per_action",
            ],
        )
    }
}

/// Finds the columns of `terraform_recipe_desc`.
pub fn resolve_terraform_recipe_cols(schema: &MirroredSchema) -> (r: Result<TerraformRecipeCols, DecodeError>)
    ensures
        match r {
            Ok(c) => {
                &&& c.found(*schema)
                &&& TerraformRecipeCols::missing(*schema) is None
            },
            Err(e) => TerraformRecipeCols::missing(*schema) == Some(e),
        },
{
    let names: [&'static str; 4] = [
        "difference",
        "actions_count",
        "stamina_per_action",
        "time_per_action",
    ];
    assert(names@ =~= seq![
        "difference",
        "actions_count",
        "stamina_per_action",
        "time_per_action",
    ]);
    let at: Vec<usize> = find_fields(schema, TERRAFORM_RECIPE_DESC_TABLE, names.as_slice())?;
    Ok(
        TerraformRecipeCols {
            difference: at[0],
            actions_count: at[1],
            stamina_per_action: at[2],
            time_per_action: at[3],
        },
    )
}

/// Positions of the columns of `region_name_state`.
#[derive(Debug, Clone, Copy, PartialEq, Eq, Structural)]
pub struct RegionNameCols {
    pub id: usize,
    pub player_facing_name: usize,
}

impl RegionNameCols {
    /// Whether a row with `n` columns has them all.
    pub open spec fn fit(self, n: nat) -> bool {
        &&& self.id < n
        &&& self.player_facing_name < n
    }

    /// The positions of the columns in the schema.
    pub open spec fn found(self, schema: MirroredSchema) -> bool {
        &&& columns(schema, REGION_NAME_TABLE) is Ok
        &&& self.fit(columns(schema, REGION_NAME_TABLE)->Ok_0.len())
        &&& stands_at(schema, REGION_NAME_TABLE, "id", self.id)
        &&& stands_at(schema, REGION_NAME_TABLE, "player_facing_name", self.player_facing_name)
    }

    /// The first column that the schema lacks, as an error.
    pub open spec fn missing(schema: MirroredSchema) -> Option<DecodeError> {
        lacking(
            schema,
            REGION_NAME_TABLE,
            seq![
                "id",
                "player_facing_name",
            ],
        )
    }
}

/// Finds the columns of `region_name_state`.
pub fn resolve_region_name_cols(schema: &MirroredSchema) -> (r: Result<RegionNameCols, DecodeError>)
    ensures
        match r {
            Ok(c) => {
                &&& c.found(*schema)
                &&& RegionNameCols::missing(*schema) is None
            },
            Err(e) => RegionNameCols::missing(*schema) == Some(e),
        },
{
    let names: [&'static str; 2] = [
        "id",
        "player_facing_name",
    ];
    assert(names@ =~= seq![
        "id",
        "player_facing_name",
    ]);
    let at: Vec<usize> = find_fields(schema, REGION_NAME_TABLE, names.as_slice())?;
    Ok(
        RegionNameCols {
            id: at[0],
            player_facing_name: at[1],
        },
    )
}

/// Positions of the columns of `world_region_state`.
#[derive(Debug, Clone, Copy, PartialEq, Eq, Structural)]
pub struct WorldRegionCols {
    pub region_width_chunks: usize,
    pub region_height_chunks: usize,
    pub region_count_sqrt: usize,
}

impl WorldRegionCols {
    /// Whether a row with `n` columns has them all.
    pub open spec fn fit(self, n: nat) -> bool {
        &&& self.region_width_chunks < n
        &&& self.region_height_chunks < n
        &&& self.region_count_sqrt < n
    }

    /// The positions of the columns in the schema.
    pub open spec fn found(self, schema: MirroredSchema) -> bool {
        &&& columns(schema, WORLD_REGION_STATE_TABLE) is Ok
        &&& self.fit(columns(schema, WORLD_REGION_STATE_TABLE)->Ok_0.len())
        &&& stands_at(schema, WORLD_REGION_STATE_TABLE, "region_width_chunks", self.region_width_chunks)
        &&& stands_at(schema, WORLD_REGION_STATE_TABLE, "region_height_chunks", self.region_height_chunks)
        &&& stands_at(schema, WORLD_REGION_STATE_TABLE, "region_count_sqrt", self.region_count_sqrt)
    }

    /// The first column that the schema lacks, as an error.
    pub open spec fn missing(schema: MirroredSchema) -> Option<DecodeError> {
        lacking(
            schema,
            WORLD_REGION_STATE_TABLE,
            seq![
                "region_width_chunks",
                "region_height_chunks",
                "region_count_sqrt",
            ],
        )
    }
}

/// Finds the columns of `world_region_state`.
pub fn resolve_world_region_cols(schema: &MirroredSchema) -> (r: Result<WorldRegionCols, DecodeError>)
    ensures
        match r {
            Ok(c) => {
                &&& c.found(*schema)
                &&& WorldRegionCols::missing(*schema) is None
            },
            Err(e) => WorldRegionCols::missing(*schema) == Some(e),
        },
{
    let names: [&'static str; 3] = [
        "region_width_chunks",
        "region_height_chunks",
        "region_count_sqrt",
    ];
    assert(names@ =~= seq![
        "region_width_chunks",
        "region_height_chunks",
        "region_count_sqrt",
    ]);
    let at: Vec<usize> = find_fields(schema, WORLD_REGION_STATE_TABLE, names.as_slice())?;
    Ok(
        WorldRegionCols {
            region_width_chunks: at[0],
            region_height_chunks: at[1],
            region_count_sqrt: at[2],
        },
    )
}

/// Positions of the columns of every table that is held.
#[derive(Debug, Clone, Copy)]
pub struct RoadsColMaps {
    pub terrain_chunk: TerrainChunkCols,
    pub paved_tile: PavedTileCols,
    pub claim_tile: ClaimTileCols,
    pub claim_state: ClaimStateRoadsCols,
    pub location: LocationRoadsCols,
    pub paving_desc: PavingDescCols,
    pub terraform_recipe: TerraformRecipeCols,
    pub region_name: RegionNameCols,
    pub world_region: WorldRegionCols,
}

impl RoadsColMaps {
    /// The columns of the schema with their names.
    pub open spec fn found(self, schema: MirroredSchema) -> bool {
        &&& self.terrain_chunk.found(schema)
        &&& self.paved_tile.found(schema)
        &&& self.claim_tile.found(schema)
        &&& self.claim_state.found(schema)
        &&& self.location.found(schema)
        &&& self.paving_desc.found(schema)
        &&& self.terraform_recipe.found(schema)
        &&& self.region_name.found(schema)
        &&& self.world_region.found(schema)
    }

    /// The first column that the schema lacks, as an error.
    pub open spec fn missing(schema: MirroredSchema) -> Option<DecodeError> {
        let terrain_chunk = TerrainChunkCols::missing(schema);
        let paved_tile = PavedTileCols::missing(schema);
        let claim_tile = ClaimTileCols::missing(schema);
        let claim_state = ClaimStateRoadsCols::missing(schema);
        let location = LocationRoadsCols::missing(schema);
        let paving_desc = PavingDescCols::missing(schema);
        let terraform_recipe = TerraformRecipeCols::missing(schema);
        let region_name = RegionNameCols::missing(schema);
        let world_region = WorldRegionCols::missing(schema);
        let group0 = either(terrain_chunk, either(paved_tile, either(claim_tile, either(claim_state, location))));
        let group1 = either(paving_desc, either(terraform_recipe, either(region_name, world_region)));
        either(group0, group1)
    }
}

/// Finds the columns of every table that is held. A table or a column that is
/// not there is an error.
pub fn resolve_roads_cols(schema: &MirroredSchema) -> (r: Result<RoadsColMaps, DecodeError>)
    ensures
        match r {
            Ok(c) => c.found(*schema) && RoadsColMaps::missing(*schema) is None,
            Err(e) => RoadsColMaps::missing(*schema) == Some(e),
        },
{
    let terrain_chunk: TerrainChunkCols = resolve_terrain_chunk_cols(schema)?;
    let paved_tile: PavedTileCols = resolve_paved_tile_cols(schema)?;
    let claim_tile: ClaimTileCols = resolve_claim_tile_cols(schema)?;
    let claim_state: ClaimStateRoadsCols = resolve_claim_state_roads_cols(schema)?;
    let location: LocationRoadsCols = resolve_location_roads_cols(schema)?;
    let paving_desc: PavingDescCols = resolve_paving_desc_cols(schema)?;
    let terraform_recipe: TerraformRecipeCols = resolve_terraform_recipe_cols(schema)?;
    let region_name: RegionNameCols = resolve_region_name_cols(schema)?;
    let world_region: WorldRegionCols = resolve_world_region_cols(schema)?;
    Ok(
        RoadsColMaps {
            terrain_chunk,
            paved_tile,
            claim_tile,
            claim_state,
            location,
            paving_desc,
            terraform_recipe,
            region_name,
            world_region,
        },
    )
}

/// A row of `terrain_chunk_state`.
#[derive(Debug, Clone, PartialEq, Eq)]
pub struct TerrainChunkRow {
    pub chunk_x: i32,
    pub chunk_z: i32,
    pub dimension: u32,
    pub elevations: Vec<i16>,
    pub original_elevations: Vec<i16>,
    pub water_levels: Vec<i16>,
    pub water_body_types: Vec<u8>,
}

impl TerrainChunkRow {
    /// What the cells of a row say.
    pub open spec fn reads(self, cells: Seq<Cell>, cols: TerrainChunkCols) -> bool {
        &&& i32_in(cells[cols.chunk_x as int], "chunk_x") == Ok::<i32, DecodeError>(self.chunk_x)
        &&& i32_in(cells[cols.chunk_z as int], "chunk_z") == Ok::<i32, DecodeError>(self.chunk_z)
        &&& u32_in(cells[cols.dimension as int], "dimension") == Ok::<u32, DecodeError>(self.dimension)
        &&& i16s_in(cells[cols.elevations as int], "elevations") == Ok::<Seq<i16>, DecodeError>(self.elevations@)
        &&& i16s_in(cells[cols.original_elevations as int], "original_elevations")
            == Ok::<Seq<i16>, DecodeError>(self.original_elevations@)
        &&& i16s_in(cells[cols.water_levels as int], "water_levels") == Ok::<Seq<i16>, DecodeError>(self.water_levels@)
        &&& u8s_in(cells[cols.water_body_types as int], "water_body_types")
            == Ok::<Seq<u8>, DecodeError>(self.water_body_types@)
    }

    /// The first cell that cannot be read, as an error.
    pub open spec fn error(cells: Seq<Cell>, cols: TerrainChunkCols) -> Option<DecodeError> {
        either(
            failed(i32_in(cells[cols.chunk_x as int], "chunk_x")),
            either(
                failed(i32_in(cells[cols.chunk_z as int], "chunk_z")),
                either(
                    failed(u32_in(cells[cols.dimension as int], "dimension")),
                    either(
                        failed(i16s_in(cells[cols.elevations as int], "elevations")),
                        either(
                            failed(i16s_in(cells[cols.original_elevations as int], "original_elevations")),
                            either(
                                failed(i16s_in(cells[cols.water_levels as int], "water_levels")),
                                failed(u8s_in(cells[cols.water_body_types as int], "water_body_types")),
                            ),
                        ),
                    ),
                ),
            ),
        )
    }
}

/// Reads a row of `terrain_chunk_state`.
pub fn decode_terrain_chunk(cells: &[Cell], cols: TerrainChunkCols) -> (r: Result<TerrainChunkRow, DecodeError>)
    requires
        cols.fit(cells@.len()),
    ensures
        match r {
            Ok(row) => row.reads(cells@, cols) && TerrainChunkRow::error(cells@, cols) is None,
            Err(e) => TerrainChunkRow::error(cells@, cols) == Some(e),
        },
{
    let chunk_x: i32 = cell_i32(&cells[cols.chunk_x], "chunk_x")?;
    let chunk_z: i32 = cell_i32(&cells[cols.chunk_z], "chunk_z")?;
    let dimension: u32 = cell_u32(&cells[cols.dimension], "dimension")?;
    let elevations: Vec<i16> = decode_i16_array(&cells[cols.elevations], "elevations")?;
    let original_elevations: Vec<i16> = decode_i16_array(&cells[cols.original_elevations], "original_elevations")?;
    let water_levels: Vec<i16> = decode_i16_array(&cells[cols.water_levels], "water_levels")?;
    let water_body_types: Vec<u8> = decode_u8_array(&cells[cols.water_body_types], "water_body_types")?;
    Ok(
        TerrainChunkRow {
            chunk_x,
            chunk_z,
            dimension,
            elevations,
            original_elevations,
            water_levels,
            water_body_types,
        },
    )
}

/// A row of `paved_tile_state`.
#[derive(Debug, Clone, Copy, PartialEq, Eq)]
pub struct PavedTileRow {
    pub entity_id: u64,
    pub tile_type_id: i32,
}

impl PavedTileRow {
    /// What the cells of a row say.
    pub open spec fn reads(self, cells: Seq<Cell>, cols: PavedTileCols) -> bool {
        &&& u64_in(cells[cols.entity_id as int], "entity_id") == Ok::<u64, DecodeError>(self.entity_id)
        &&& i32_in(cells[cols.tile_type_id as int], "tile_type_id") == Ok::<i32, DecodeError>(self.tile_type_id)
    }

    /// The first cell that cannot be read, as an error.
    pub open spec fn error(cells: Seq<Cell>, cols: PavedTileCols) -> Option<DecodeError> {
        either(
            failed(u64_in(cells[cols.entity_id as int], "entity_id")),
            failed(i32_in(cells[cols.tile_type_id as int], "tile_type_id")),
        )
    }
}

/// Reads a row of `paved_tile_state`.
pub fn decode_paved_tile(cells: &[Cell], cols: PavedTileCols) -> (r: Result<PavedTileRow, DecodeError>)
    requires
        cols.fit(cells@.len()),
    ensures
        match r {
            Ok(row) => row.reads(cells@, cols) && PavedTileRow::error(cells@, cols) is None,
            Err(e) => PavedTileRow::error(cells@, cols) == Some(e),
        },
{
    let entity_id: u64 = cell_u64(&cells[cols.entity_id], "entity_id")?;
    let tile_type_id: i32 = cell_i32(&cells[cols.tile_type_id], "tile_type_id")?;
    Ok(
        PavedTileRow {
            entity_id,
            tile_type_id,
        },
    )
}

/// A row of `claim_tile_state`.
#[derive(Debug, Clone, Copy, PartialEq, Eq)]
pub struct ClaimTileRow {
    pub entity_id: u64,
    pub claim_id: u64,
}

impl ClaimTileRow {
    /// What the cells of a row say.
    pub open spec fn reads(self, cells: Seq<Cell>, cols: ClaimTileCols) -> bool {
        &&& u64_in(cells[cols.entity_id as int], "entity_id") == Ok::<u64, DecodeError>(self.entity_id)
        &&& u64_in(cells[cols.claim_id as int], "claim_id") == Ok::<u64, DecodeError>(self.claim_id)
    }

    /// The first cell that cannot be read, as an error.
    pub open spec fn error(cells: Seq<Cell>, cols: ClaimTileCols) -> Option<DecodeError> {
        either(
            failed(u64_in(cells[cols.entity_id as int], "entity_id")),
            failed(u64_in(cells[cols.claim_id as int], "claim_id")),
        )
    }
}

/// Reads a row of `claim_tile_state`.
pub fn decode_claim_tile(cells: &[Cell], cols: ClaimTileCols) -> (r: Result<ClaimTileRow, DecodeError>)
    requires
        cols.fit(cells@.len()),
    ensures
        match r {
            Ok(row) => row.reads(cells@, cols) && ClaimTileRow::error(cells@, cols) is None,
            Err(e) => ClaimTileRow::error(cells@, cols) == Some(e),
        },
{
    let entity_id: u64 = cell_u64(&cells[cols.entity_id], "entity_id")?;
    let claim_id: u64 = cell_u64(&cells[cols.claim_id], "claim_id")?;
    Ok(
        ClaimTileRow {
            entity_id,
            claim_id,
        },
    )
}

/// A row of `claim_state`.
#[derive(Debug, Clone, Copy, PartialEq, Eq)]
pub struct ClaimStateRoadsRow {
    pub entity_id: u64,
    pub neutral: bool,
}

impl ClaimStateRoadsRow {
    /// What the cells of a row say.
    pub open spec fn reads(self, cells: Seq<Cell>, cols: ClaimStateRoadsCols) -> bool {
        &&& u64_in(cells[cols.entity_id as int], "entity_id") == Ok::<u64, DecodeError>(self.entity_id)
        &&& bool_in(cells[cols.neutral as int], "neutral") == Ok::<bool, DecodeError>(self.neutral)
    }

    /// The first cell that cannot be read, as an error.
    pub open spec fn error(cells: Seq<Cell>, cols: ClaimStateRoadsCols) -> Option<DecodeError> {
        either(
            failed(u64_in(cells[cols.entity_id as int], "entity_id")),
            failed(bool_in(cells[cols.neutral as int], "neutral")),
        )
    }
}

/// Reads a row of `claim_state`.
pub fn decode_claim_state_roads(cells: &[Cell], cols: ClaimStateRoadsCols) -> (r: Result<ClaimStateRoadsRow, DecodeError>)
    requires
        cols.fit(cells@.len()),
    ensures
        match r {
            Ok(row) => row.reads(cells@, cols) && ClaimStateRoadsRow::error(cells@, cols) is None,
            Err(e) => ClaimStateRoadsRow::error(cells@, cols) == Some(e),
        },
{
    let entity_id: u64 = cell_u64(&cells[cols.entity_id], "entity_id")?;
    let neutral: bool = cell_bool(&cells[cols.neutral], "neutral")?;
    Ok(
        ClaimStateRoadsRow {
            entity_id,
            neutral,
        },
    )
}

/// A row of `location_state`.
#[derive(Debug, Clone, Copy, PartialEq, Eq)]
pub struct LocationRoadsRow {
    pub entity_id: u64,
    pub x: i32,
    pub z: i32,
    pub dimension: u32,
}

impl LocationRoadsRow {
    /// What the cells of a row say.
    pub open spec fn reads(self, cells: Seq<Cell>, cols: LocationRoadsCols) -> bool {
        &&& u64_in(cells[cols.entity_id as int], "entity_id") == Ok::<u64, DecodeError>(self.entity_id)
        &&& i32_in(cells[cols.x as int], "x") == Ok::<i32, DecodeError>(self.x)
        &&& i32_in(cells[cols.z as int], "z") == Ok::<i32, DecodeError>(self.z)
        &&& u32_in(cells[cols.dimension as int], "dimension") == Ok::<u32, DecodeError>(self.dimension)
    }

    /// The first cell that cannot be read, as an error.
    pub open spec fn error(cells: Seq<Cell>, cols: LocationRoadsCols) -> Option<DecodeError> {
        either(
            failed(u64_in(cells[cols.entity_id as int], "entity_id")),
            either(
                failed(i32_in(cells[cols.x as int], "x")),
                either(
                    failed(i32_in(cells[cols.z as int], "z")),
                    failed(u32_in(cells[cols.dimension as int], "dimension")),
                ),
            ),
        )
    }
}

/// Reads a row of `location_state`.
pub fn decode_location_roads(cells: &[Cell], cols: LocationRoadsCols) -> (r: Result<LocationRoadsRow, DecodeError>)
    requires
        cols.fit(cells@.len()),
    ensures
        match r {
            Ok(row) => row.reads(cells@, cols) && LocationRoadsRow::error(cells@, cols) is None,
            Err(e) => LocationRoadsRow::error(cells@, cols) == Some(e),
        },
{
    let entity_id: u64 = cell_u64(&cells[cols.entity_id], "entity_id")?;
    let x: i32 = cell_i32(&cells[cols.x], "x")?;
    let z: i32 = cell_i32(&cells[cols.z], "z")?;
    let dimension: u32 = cell_u32(&cells[cols.dimension], "dimension")?;
    Ok(
        LocationRoadsRow {
            entity_id,
            x,
            z,
            dimension,
        },
    )
}

/// A row of `paving_tile_desc`.
#[derive(Debug, Clone, PartialEq, Eq)]
pub struct PavingDescRow {
    pub id: i32,
    pub name: String,
    pub paving_duration: Single,
    pub tier: i32,
    pub input_cargo_id: i32,
    pub consumed: Vec<(i32, u32, bool)>,
}

impl PavingDescRow {
    /// What the cells of a row say.
    pub open spec fn reads(self, cells: Seq<Cell>, cols: PavingDescCols) -> bool {
        &&& i32_in(cells[cols.id as int], "id") == Ok::<i32, DecodeError>(self.id)
        &&& text_in(cells[cols.name as int], "name") == Ok::<Seq<char>, DecodeError>(self.name@)
        &&& single_in(cells[cols.paving_duration as int], "paving_duration")
            == Ok::<Single, DecodeError>(self.paving_duration)
        &&& i32_in(cells[cols.tier as int], "tier") == Ok::<i32, DecodeError>(self.tier)
        &&& i32_in(cells[cols.input_cargo_id as int], "input_cargo_id") == Ok::<i32, DecodeError>(self.input_cargo_id)
        &&& consumed_in(cells[cols.consumed_item_stacks as int], "consumed_item_stacks")
            == Ok::<Seq<(i32, u32, bool)>, DecodeError>(self.consumed@)
    }

    /// The first cell that cannot be read, as an error.
    pub open spec fn error(cells: Seq<Cell>, cols: PavingDescCols) -> Option<DecodeError> {
        either(
            failed(i32_in(cells[cols.id as int], "id")),
            either(
                failed(text_in(cells[cols.name as int], "name")),
                either(
                    failed(single_in(cells[cols.paving_duration as int], "paving_duration")),
                    either(
                        failed(i32_in(cells[cols.tier as int], "tier")),
                        either(
                            failed(i32_in(cells[cols.input_cargo_id as int], "input_cargo_id")),
                            failed(consumed_in(cells[cols.consumed_item_stacks as int], "consumed_item_stacks")),
                        ),
                    ),
                ),
            ),
        )
    }
}

/// Reads a row of `paving_tile_desc`.
pub fn decode_paving_desc(cells: &[Cell], cols: PavingDescCols) -> (r: Result<PavingDescRow, DecodeError>)
    requires
        cols.fit(cells@.len()),
    ensures
        match r {
            Ok(row) => row.reads(cells@, cols) && PavingDescRow::error(cells@, cols) is None,
            Err(e) => PavingDescRow::error(cells@, cols) == Some(e),
        },
{
    let id: i32 = cell_i32(&cells[cols.id], "id")?;
    let name: String = cell_string(&cells[cols.name], "name")?;
    let paving_duration: Single = cell_f32(&cells[cols.paving_duration], "paving_duration")?;
    let tier: i32 = cell_i32(&cells[cols.tier], "tier")?;
    let input_cargo_id: i32 = cell_i32(&cells[cols.input_cargo_id], "input_cargo_id")?;
    let consumed: Vec<(i32, u32, bool)> =
        decode_consumed_stacks(&cells[cols.consumed_item_stacks], "consumed_item_stacks")?;
    Ok(
        PavingDescRow {
            id,
            name,
            paving_duration,
            tier,
            input_cargo_id,
            consumed,
        },
    )
}

/// A row of `terraform_recipe_desc`.
#[derive(Debug, Clone, Copy, PartialEq, Eq)]
pub struct TerraformRecipeRow {
    pub difference: i16,
    pub actions_count: i32,
    pub stamina_per_action: Single,
    pub time_per_action: Single,
}

impl TerraformRecipeRow {
    /// What the cells of a row say.
    pub open spec fn reads(self, cells: Seq<Cell>, cols: TerraformRecipeCols) -> bool {
        &&& i16_in(cells[cols.difference as int], "difference") == Ok::<i16, DecodeError>(self.difference)
        &&& i32_in(cells[cols.actions_count as int], "actions_count") == Ok::<i32, DecodeError>(self.actions_count)
        &&& single_in(cells[cols.stamina_per_action as int], "stamina_per_action")
            == Ok::<Single, DecodeError>(self.stamina_per_action)
        &&& single_in(cells[cols.time_per_action as int], "time_per_action")
            == Ok::<Single, DecodeError>(self.time_per_action)
    }

    /// The first cell that cannot be read, as an error.
    pub open spec fn error(cells: Seq<Cell>, cols: TerraformRecipeCols) -> Option<DecodeError> {
        either(
            failed(i16_in(cells[cols.difference as int], "difference")),
            either(
                failed(i32_in(cells[cols.actions_count as int], "actions_count")),
                either(
                    failed(single_in(cells[cols.stamina_per_action as int], "stamina_per_action")),
                    failed(single_in(cells[cols.time_per_action as int], "time_per_action")),
                ),
            ),
        )
    }
}

/// Reads a row of `terraform_recipe_desc`.
pub fn decode_terraform_recipe(cells: &[Cell], cols: TerraformRecipeCols) -> (r: Result<TerraformRecipeRow, DecodeError>)
    requires
        cols.fit(cells@.len()),
    ensures
        match r {
            Ok(row) => row.reads(cells@, cols) && TerraformRecipeRow::error(cells@, cols) is None,
            Err(e) => TerraformRecipeRow::error(cells@, cols) == Some(e),
        },
{
    let difference: i16 = cell_i16(&cells[cols.difference], "difference")?;
    let actions_count: i32 = cell_i32(&cells[cols.actions_count], "actions_count")?;
    let stamina_per_action: Single = cell_f32(&cells[cols.stamina_per_action], "stamina_per_action")?;
    let time_per_action: Single = cell_f32(&cells[cols.time_per_action], "time_per_action")?;
    Ok(
        TerraformRecipeRow {
            difference,
            actions_count,
            stamina_per_action,
            time_per_action,
        },
    )
}

/// A row of `region_name_state`.
#[derive(Debug, Clone, PartialEq, Eq)]
pub struct RegionNameRow {
    pub id: u16,
    pub name: String,
}

impl RegionNameRow {
    /// What the cells of a row say.
    pub open spec fn reads(self, cells: Seq<Cell>, cols: RegionNameCols) -> bool {
        &&& u16_in(cells[cols.id as int], "id") == Ok::<u16, DecodeError>(self.id)
        &&& text_in(cells[cols.player_facing_name as int], "player_facing_name")
            == Ok::<Seq<char>, DecodeError>(self.name@)
    }

    /// The first cell that cannot be read, as an error.
    pub open spec fn error(cells: Seq<Cell>, cols: RegionNameCols) -> Option<DecodeError> {
        either(
            failed(u16_in(cells[cols.id as int], "id")),
            failed(text_in(cells[cols.player_facing_name as int], "player_facing_name")),
        )
    }
}

/// Reads a row of `region_name_state`.
pub fn decode_region_name(cells: &[Cell], cols: RegionNameCols) -> (r: Result<RegionNameRow, DecodeError>)
    requires
        cols.fit(cells@.len()),
    ensures
        match r {
            Ok(row) => row.reads(cells@, cols) && RegionNameRow::error(cells@, cols) is None,
            Err(e) => RegionNameRow::error(cells@, cols) == Some(e),
        },
{
    let id: u16 = cell_u16(&cells[cols.id], "id")?;
    let name: String = cell_string(&cells[cols.player_facing_name], "player_facing_name")?;
    Ok(
        RegionNameRow {
            id,
            name,
        },
    )
}

/// A row of `world_region_state`.
#[derive(Debug, Clone, Copy, PartialEq, Eq)]
pub struct WorldRegionRow {
    pub region_width_chunks: u16,
    pub region_height_chunks: u16,
    pub region_count_sqrt: u8,
}

impl WorldRegionRow {
    /// What the cells of a row say.
    pub open spec fn reads(self, cells: Seq<Cell>, cols: WorldRegionCols) -> bool {
        &&& u16_in(cells[cols.region_width_chunks as int], "region_width_chunks")
            == Ok::<u16, DecodeError>(self.region_width_chunks)
        &&& u16_in(cells[cols.region_height_chunks as int], "region_height_chunks")
            == Ok::<u16, DecodeError>(self.region_height_chunks)
        &&& u8_in(cells[cols.region_count_sqrt as int], "region_count_sqrt")
            == Ok::<u8, DecodeError>(self.region_count_sqrt)
    }

    /// The first cell that cannot be read, as an error.
    pub open spec fn error(cells: Seq<Cell>, cols: WorldRegionCols) -> Option<DecodeError> {
        either(
            failed(u16_in(cells[cols.region_width_chunks as int], "region_width_chunks")),
            either(
                failed(u16_in(cells[cols.region_height_chunks as int], "region_height_chunks")),
                failed(u8_in(cells[cols.region_count_sqrt as int], "region_count_sqrt")),
            ),
        )
    }
}

/// Reads a row of `world_region_state`.
pub fn decode_world_region(cells: &[Cell], cols: WorldRegionCols) -> (r: Result<WorldRegionRow, DecodeError>)
    requires
        cols.fit(cells@.len()),
    ensures
        match r {
            Ok(row) => row.reads(cells@, cols) && WorldRegionRow::error(cells@, cols) is None,
            Err(e) => WorldRegionRow::error(cells@, cols) == Some(e),
        },
{
    let region_width_chunks: u16 = cell_u16(&cells[cols.region_width_chunks], "region_width_chunks")?;
    let region_height_chunks: u16 = cell_u16(&cells[cols.region_height_chunks], "region_height_chunks")?;
    let region_count_sqrt: u8 = cell_u8(&cells[cols.region_count_sqrt], "region_count_sqrt")?;
    Ok(
        WorldRegionRow {
            region_width_chunks,
            region_height_chunks,
            region_count_sqrt,
        },
    )
}

} // verus!
