//! The columns that the road maps read, found once per schema.

use vstd::prelude::*;

use crate::decode::columns::{resolve_resource_cols, ResourceCols, RESOURCE_TABLE};
use crate::decode::fast::ResourceFast;
use crate::roads::decode::{
    resolve_claim_state_roads_cols, resolve_claim_tile_cols, resolve_location_roads_cols, resolve_paved_tile_cols,
    resolve_paving_desc_cols, resolve_region_name_cols, resolve_terraform_recipe_cols, resolve_terrain_chunk_cols,
    resolve_world_region_cols, ClaimStateRoadsCols, ClaimTileCols, LocationRoadsCols, PavedTileCols, PavingDescCols,
    RegionNameCols, TerraformRecipeCols, TerrainChunkCols, WorldRegionCols,
};
use crate::schema::{columns, either, failed, fields_of, DecodeError, MirroredSchema};

verus! {

/// Columns of the tables behind the road maps. A regional database has the
/// first five and the resources, the global one the rest.
#[derive(Debug, Clone, Copy)]
pub struct RoadsTableMeta {
    pub terrain_chunk: TerrainChunkCols,
    pub paved_tile: PavedTileCols,
    pub claim_tile: ClaimTileCols,
    pub claim_state: ClaimStateRoadsCols,
    pub location: LocationRoadsCols,
    pub paving_desc: Option<PavingDescCols>,
    pub terraform_recipe: Option<TerraformRecipeCols>,
    pub region_name: Option<RegionNameCols>,
    pub world_region: Option<WorldRegionCols>,
    pub resource: Option<ResourceCols>,
    /// Reads resources by position, where the layout allows it.
    pub resource_fast: Option<ResourceFast>,
}

/// The positions of the resource columns in the bytes of a row, where they are
/// fixed.
pub open spec fn fast_found(schema: MirroredSchema, fast: Option<ResourceFast>) -> bool {
    match (columns(schema, RESOURCE_TABLE), fast) {
        (Ok(f), Some(r)) => r.found(f),
        (Ok(f), None) => !ResourceFast::possible(f),
        (Err(_), _) => fast is None,
    }
}

/// Positions of columns that are never read: the table is not there.
pub open spec fn no_terrain_chunk() -> TerrainChunkCols {
    TerrainChunkCols {
        chunk_x: 0,
        chunk_z: 0,
        dimension: 0,
        elevations: 0,
        original_elevations: 0,
        water_levels: 0,
        water_body_types: 0,
    }
}

/// Positions of columns that are never read: the table is not there.
pub open spec fn no_paved_tile() -> PavedTileCols {
    PavedTileCols { entity_id: 0, tile_type_id: 0 }
}

/// Positions of columns that are never read: the table is not there.
pub open spec fn no_claim_tile() -> ClaimTileCols {
    ClaimTileCols { entity_id: 0, claim_id: 0 }
}

/// Positions of columns that are never read: the table is not there.
pub open spec fn no_claim_state() -> ClaimStateRoadsCols {
    ClaimStateRoadsCols { entity_id: 0, neutral: 0 }
}

/// Positions of columns that are never read: the table is not there.
pub open spec fn no_location() -> LocationRoadsCols {
    LocationRoadsCols { entity_id: 0, x: 0, z: 0, dimension: 0 }
}

impl RoadsTableMeta {
    /// Every column of a regional database is found.
    pub open spec fn regional(self, schema: MirroredSchema) -> bool {
        &&& self.terrain_chunk.found(schema)
        &&& self.paved_tile.found(schema)
        &&& self.claim_tile.found(schema)
        &&& self.claim_state.found(schema)
        &&& self.location.found(schema)
        &&& self.paving_desc is None
        &&& self.terraform_recipe is None
        &&& self.region_name is None
        &&& self.world_region is None
        &&& self.resource matches Some(c) && c.found(schema)
        &&& fast_found(schema, self.resource_fast)
    }

    /// The first column that a regional database lacks, as an error.
    pub open spec fn regional_missing(schema: MirroredSchema) -> Option<DecodeError> {
        let resources = failed(columns(schema, RESOURCE_TABLE));
        let terrain_chunk = TerrainChunkCols::missing(schema);
        let paved_tile = PavedTileCols::missing(schema);
        let claim_tile = ClaimTileCols::missing(schema);
        let claim_state = ClaimStateRoadsCols::missing(schema);
        let location = LocationRoadsCols::missing(schema);
        let resource = ResourceCols::missing(schema);
        either(
            resources,
            either(
                terrain_chunk,
                either(paved_tile, either(claim_tile, either(claim_state, either(location, resource)))),
            ),
        )
    }

    /// Every column that the global database has is found.
    pub open spec fn global(self, schema: MirroredSchema) -> bool {
        &&& if TerrainChunkCols::missing(schema) is None {
            self.terrain_chunk.found(schema)
        } else {
            self.terrain_chunk == no_terrain_chunk()
        }
        &&& if PavedTileCols::missing(schema) is None {
            self.paved_tile.found(schema)
        } else {
            self.paved_tile == no_paved_tile()
        }
        &&& if ClaimTileCols::missing(schema) is None {
            self.claim_tile.found(schema)
        } else {
            self.claim_tile == no_claim_tile()
        }
        &&& if ClaimStateRoadsCols::missing(schema) is None {
            self.claim_state.found(schema)
        } else {
            self.claim_state == no_claim_state()
        }
        &&& if LocationRoadsCols::missing(schema) is None {
            self.location.found(schema)
        } else {
            self.location == no_location()
        }
        &&& match self.paving_desc {
            Some(c) => c.found(schema),
            None => PavingDescCols::missing(schema) is Some,
        }
        &&& match self.terraform_recipe {
            Some(c) => c.found(schema),
            None => TerraformRecipeCols::missing(schema) is Some,
        }
        &&& match self.region_name {
            Some(c) => c.found(schema),
            None => RegionNameCols::missing(schema) is Some,
        }
        &&& match self.world_region {
            Some(c) => c.found(schema),
            None => WorldRegionCols::missing(schema) is Some,
        }
        &&& match self.resource {
            Some(c) => c.found(schema),
            None => ResourceCols::missing(schema) is Some,
        }
        &&& fast_found(schema, self.resource_fast)
    }

    /// The columns of a regional database; a table or a column that is not
    /// there is an error.
    pub fn from_schema_regional(schema: &MirroredSchema) -> (r: Result<Self, DecodeError>)
        requires
            columns(*schema, RESOURCE_TABLE) matches Ok(f) ==> 32 * f.len() <= usize::MAX,
        ensures
            match r {
                Ok(m) => m.regional(*schema) && Self::regional_missing(*schema) is None,
                Err(e) => Self::regional_missing(*schema) == Some(e),
            },
    {
        let fields = fields_of(schema, RESOURCE_TABLE)?;
        let terrain_chunk: TerrainChunkCols = resolve_terrain_chunk_cols(schema)?;
        let paved_tile: PavedTileCols = resolve_paved_tile_cols(schema)?;
        let claim_tile: ClaimTileCols = resolve_claim_tile_cols(schema)?;
        let claim_state: ClaimStateRoadsCols = resolve_claim_state_roads_cols(schema)?;
        let location: LocationRoadsCols = resolve_location_roads_cols(schema)?;
        let resource: ResourceCols = resolve_resource_cols(schema)?;
        Ok(
            RoadsTableMeta {
                terrain_chunk,
                paved_tile,
                claim_tile,
                claim_state,
                location,
                paving_desc: None,
                terraform_recipe: None,
                region_name: None,
                world_region: None,
                resource: Some(resource),
                resource_fast: ResourceFast::try_from_fields(fields),
            },
        )
    }

    /// The columns that the global database has.
    pub fn from_schema_global(schema: &MirroredSchema) -> (r: Result<Self, DecodeError>)
        requires
            columns(*schema, RESOURCE_TABLE) matches Ok(f) ==> 32 * f.len() <= usize::MAX,
        ensures
            r matches Ok(m) && m.global(*schema),
    {
        let terrain_chunk: TerrainChunkCols = match resolve_terrain_chunk_cols(schema) {
            Ok(c) => c,
            Err(_) => TerrainChunkCols {
                chunk_x: 0,
                chunk_z: 0,
                dimension: 0,
                elevations: 0,
                original_elevations: 0,
                water_levels: 0,
                water_body_types: 0,
            },
        };
        let paved_tile: PavedTileCols = match resolve_paved_tile_cols(schema) {
            Ok(c) => c,
            Err(_) => PavedTileCols { entity_id: 0, tile_type_id: 0 },
        };
        let claim_tile: ClaimTileCols = match resolve_claim_tile_cols(schema) {
            Ok(c) => c,
            Err(_) => ClaimTileCols { entity_id: 0, claim_id: 0 },
        };
        let claim_state: ClaimStateRoadsCols = match resolve_claim_state_roads_cols(schema) {
            Ok(c) => c,
            Err(_) => ClaimStateRoadsCols { entity_id: 0, neutral: 0 },
        };
        let location: LocationRoadsCols = match resolve_location_roads_cols(schema) {
            Ok(c) => c,
            Err(_) => LocationRoadsCols { entity_id: 0, x: 0, z: 0, dimension: 0 },
        };
        let paving_desc: Option<PavingDescCols> = match resolve_paving_desc_cols(schema) {
            Ok(c) => Some(c),
            Err(_) => None,
        };
        let terraform_recipe: Option<TerraformRecipeCols> = match resolve_terraform_recipe_cols(schema) {
            Ok(c) => Some(c),
            Err(_) => None,
        };
        let region_name: Option<RegionNameCols> = match resolve_region_name_cols(schema) {
            Ok(c) => Some(c),
            Err(_) => None,
        };
        let world_region: Option<WorldRegionCols> = match resolve_world_region_cols(schema) {
            Ok(c) => Some(c),
            Err(_) => None,
        };
        let resource: Option<ResourceCols> = match resolve_resource_cols(schema) {
            Ok(c) => Some(c),
            Err(_) => None,
        };
        let resource_fast: Option<ResourceFast> = match fields_of(schema, RESOURCE_TABLE) {
            Ok(fields) => ResourceFast::try_from_fields(fields),
            Err(_) => None,
        };
        Ok(
            RoadsTableMeta {
                terrain_chunk,
                paved_tile,
                claim_tile,
                claim_state,
                location,
                paving_desc,
                terraform_recipe,
                region_name,
                world_region,
                resource,
                resource_fast,
            },
        )
    }
}

} // verus!
