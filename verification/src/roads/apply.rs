//! Rows of the mirrored tables, applied to the maps of a region.

use vstd::prelude::*;

use crate::cell::{cell_u64, u64_in, Cell};
use crate::decode::columns::RESOURCE_TABLE;
use crate::decode::rows::{decode_resource_with_fields, ResourceRow};
use crate::id_table::{key_of_pair, key_pair};
use crate::roads::decode::{
    decode_claim_state_roads, decode_claim_tile, decode_location_roads, decode_paved_tile, decode_terrain_chunk,
    ClaimStateRoadsRow, ClaimTileRow, LocationRoadsRow, PavedTileRow, TerrainChunkRow, CLAIM_STATE_TABLE,
    CLAIM_TILE_TABLE, LOCATION_TABLE, PAVED_TILE_TABLE, TERRAIN_CHUNK_TABLE,
};
use crate::roads::grid::{claim_of, paving_of, OVERLAY_CELLS};
use crate::roads::join::{
    cell_number, cleared, index_of_claim, joined_claims, joined_overlay, known, overlay_word, ChunkModel, WriterModel,
    OVERWORLD_DIMENSION,
};
use crate::roads::meta::RoadsTableMeta;
use crate::roads::resource_map::MapModel;
use crate::roads::store::{is_best_dimension, GridModel, RoadsRegionGrid};
use crate::schema::{error, plain_error, DecodeError, Problem};
use crate::text::same_text;

verus! {

/// A row as it came in: its bytes, and its cells where the bytes are a row of
/// the table.
#[derive(Debug)]
pub struct RowInput {
    pub bytes: Vec<u8>,
    pub cells: Option<Vec<Cell>>,
}

/// A row of one of the tables behind the maps.
#[derive(Debug)]
pub enum RoadsRow {
    TerrainChunk(TerrainChunkRow),
    PavedTile(PavedTileRow),
    ClaimTile(ClaimTileRow),
    ClaimState(ClaimStateRoadsRow),
    Location(LocationRoadsRow),
    Resource(ResourceRow),
    /// A row of a table that the maps do not show.
    Other,
}

/// What a terrain chunk says of its cells.
pub open spec fn chunk_of(r: TerrainChunkRow) -> ChunkModel {
    ChunkModel {
        elevations: r.elevations@,
        original: r.original_elevations@,
        water_levels: r.water_levels@,
        water_body_types: r.water_body_types@,
    }
}

/// The resources after an entity moved.
pub open spec fn resource_moved(m: MapModel, e: u64, to: (i32, i32)) -> MapModel {
    if m.nodes.dom().contains(e) && m.nodes[e].loc == Some(to) {
        m
    } else {
        m.relocated(e, Some(to))
    }
}

/// Number of chunks of a dimension after one more.
pub open spec fn counted(dims: Map<u64, u64>, dimension: u32) -> Map<u64, u64> {
    let n = match known(dims, dimension as u64) {
        Some(n) => n,
        None => 0,
    };
    dims.insert(
        dimension as u64,
        if n == u64::MAX {
            u64::MAX
        } else {
            (n + 1) as u64
        },
    )
}

impl GridModel {
    /// The maps after the cell of an entity is written anew.
    pub open spec fn rejoined(self, e: u64) -> GridModel {
        let place = known(self.place, e);
        let claim = known(self.claim, e);
        let claims = joined_claims(self.claims, self.region, place, claim);
        GridModel {
            claims,
            overlay: joined_overlay(
                self.overlay,
                self.region,
                place,
                known(self.paving, e),
                index_of_claim(claims, claim),
            ),
            ..self
        }
    }

    /// The maps after the paving of an entity is shown among the resources.
    pub open spec fn paving_shown(self, e: u64) -> GridModel {
        match (known(self.place, e), known(self.paving, e)) {
            (Some(t), Some(p)) => GridModel { resources: self.resources.paved(t.0 as int, t.1 as int, p), ..self },
            _ => self,
        }
    }

    /// The maps after the paving of an entity is no longer shown among the
    /// resources.
    pub open spec fn paving_hidden(self, e: u64) -> GridModel {
        match (known(self.place, e), known(self.paving, e)) {
            (Some(t), Some(p)) => GridModel { resources: self.resources.unpaved(t.0 as int, t.1 as int, p), ..self },
            _ => self,
        }
    }

    /// The maps after a paved tile.
    pub open spec fn with_paved(self, r: PavedTileRow, now: i64) -> GridModel {
        (GridModel { paving: self.paving.insert(r.entity_id, r.tile_type_id), ..self }).rejoined(
            r.entity_id,
        ).paving_shown(r.entity_id).bumped(now)
    }

    /// The maps after a paved tile went.
    pub open spec fn without_paved(self, r: PavedTileRow, now: i64) -> GridModel {
        let hidden = self.paving_hidden(r.entity_id);
        (GridModel {
            paving: self.paving.remove(r.entity_id),
            overlay: joined_overlay(self.overlay, self.region, known(self.place, r.entity_id), Some(0), None),
            ..hidden
        }).bumped(now)
    }

    /// The maps after a tile of a claim.
    pub open spec fn with_claim_tile(self, r: ClaimTileRow, now: i64) -> GridModel {
        (GridModel { claim: self.claim.insert(r.entity_id, r.claim_id), ..self }).rejoined(r.entity_id).bumped(now)
    }

    /// The maps after a tile of a claim went.
    pub open spec fn without_claim_tile(self, r: ClaimTileRow, now: i64) -> GridModel {
        (GridModel {
            claim: self.claim.remove(r.entity_id),
            overlay: joined_overlay(self.overlay, self.region, known(self.place, r.entity_id), None, Some(0)),
            ..self
        }).bumped(now)
    }

    /// The maps after a claim.
    pub open spec fn with_claim_state(self, r: ClaimStateRoadsRow, now: i64) -> GridModel {
        (GridModel {
            neutral: if r.neutral {
                self.neutral.insert(r.entity_id, ())
            } else {
                self.neutral.remove(r.entity_id)
            },
            ..self
        }).bumped(now)
    }

    /// The maps after a claim went.
    pub open spec fn without_claim_state(self, r: ClaimStateRoadsRow, now: i64) -> GridModel {
        (GridModel { neutral: self.neutral.remove(r.entity_id), ..self }).bumped(now)
    }

    /// The maps after a place of an entity. Only places in the overworld count.
    pub open spec fn with_location(self, r: LocationRoadsRow, now: i64) -> GridModel {
        if r.dimension != OVERWORLD_DIMENSION {
            self
        } else {
            (GridModel {
                place: self.place.insert(r.entity_id, (r.x, r.z)),
                harvest: self.harvest.relocated(self.book, r.entity_id, Some((r.x, r.z))),
                resources: resource_moved(self.resources, r.entity_id, (r.x, r.z)),
                ..self
            }).rejoined(r.entity_id).paving_shown(r.entity_id).bumped(now)
        }
    }

    /// The maps after a place of an entity went.
    pub open spec fn without_location(self, r: LocationRoadsRow, now: i64) -> GridModel {
        (if r.dimension == OVERWORLD_DIMENSION {
            GridModel {
                place: self.place.remove(r.entity_id),
                harvest: self.harvest.relocated(self.book, r.entity_id, None),
                resources: self.resources.relocated(r.entity_id, None),
                ..self
            }
        } else {
            self
        }).bumped(now)
    }

    /// The maps after a resource.
    pub open spec fn with_resource(self, r: ResourceRow) -> GridModel {
        let loc = known(self.place, r.entity_id);
        GridModel {
            harvest: self.harvest.upserted(self.book, r.entity_id, r.resource_id, r.direction_index as int, loc),
            resources: self.resources.upserted(r.entity_id, r.resource_id, r.direction_index as int, loc),
            ..self
        }
    }

    /// The maps after a resource went.
    pub open spec fn without_resource(self, r: ResourceRow) -> GridModel {
        GridModel {
            harvest: self.harvest.lifted(self.book, r.entity_id),
            resources: self.resources.deleted(r.entity_id),
            ..self
        }
    }

    /// The maps after a chunk of the shown dimension is written.
    pub open spec fn chunk_written(self, r: TerrainChunkRow) -> GridModel {
        GridModel {
            terrain: self.writer.terrain_with(self.terrain, r.chunk_x, r.chunk_z, chunk_of(r)),
            writer: self.writer.wrote(r.chunk_x, r.chunk_z, r.elevations@.len() as int),
            ..self
        }
    }

    /// The maps with the ground under water as the terrain says.
    pub open spec fn flooded(self) -> GridModel {
        GridModel { resources: self.resources.flooded(self.terrain), ..self }
    }

    /// The maps with a dimension chosen.
    pub open spec fn showing(self, dimension: u32) -> GridModel {
        GridModel { writer: WriterModel { dimension, ..self.writer }, ..self }
    }

    /// The maps after a terrain chunk. While the region is being filled it
    /// waits; later it is written where it has the dimension `best` that is
    /// shown.
    pub open spec fn with_chunk(self, r: TerrainChunkRow, best: u32, now: i64) -> GridModel {
        let seen = GridModel {
            dims: counted(self.dims, r.dimension),
            chunks: self.chunks.insert(key_pair(r.chunk_x as int, r.chunk_z as int), r.dimension),
            ..self
        };
        if !self.ready {
            GridModel { pending: self.pending.push(r), ..seen }
        } else if r.dimension == best {
            seen.showing(best).chunk_written(r).flooded().bumped(now)
        } else {
            seen.showing(best)
        }
    }

    /// The maps after a terrain chunk went.
    pub open spec fn without_chunk(self, r: TerrainChunkRow, now: i64) -> GridModel {
        (GridModel {
            terrain: cleared(
                self.terrain,
                self.writer.corner(r.chunk_x, r.chunk_z, self.writer.side as int),
                self.writer.side as int,
            ),
            chunks: self.chunks.remove(key_pair(r.chunk_x as int, r.chunk_z as int)),
            ..self
        }).bumped(now)
    }

    /// The maps after the first `n` waiting chunks of a dimension are written.
    pub open spec fn flushed(self, rows: Seq<TerrainChunkRow>, dimension: u32, n: nat) -> GridModel
        decreases n,
    {
        if n == 0 {
            self
        } else {
            let before = self.flushed(rows, dimension, (n - 1) as nat);
            if rows[n - 1].dimension == dimension {
                before.chunk_written(rows[n - 1])
            } else {
                before
            }
        }
    }

    /// The maps after the waiting terrain is written for a dimension.
    pub open spec fn terrain_seeded(self, dimension: u32) -> GridModel {
        (GridModel { pending: Seq::empty(), ..self }).showing(dimension).flushed(
            self.pending,
            dimension,
            self.pending.len(),
        ).flooded()
    }

    /// The maps after a row came.
    pub open spec fn with_row(self, row: RoadsRow, best: u32, now: i64) -> GridModel {
        match row {
            RoadsRow::TerrainChunk(r) => self.with_chunk(r, best, now),
            RoadsRow::PavedTile(r) => self.with_paved(r, now),
            RoadsRow::ClaimTile(r) => self.with_claim_tile(r, now),
            RoadsRow::ClaimState(r) => self.with_claim_state(r, now),
            RoadsRow::Location(r) => self.with_location(r, now),
            RoadsRow::Resource(r) => self.with_resource(r),
            RoadsRow::Other => self,
        }
    }

    /// The maps after a row went.
    pub open spec fn without_row(self, row: RoadsRow, now: i64) -> GridModel {
        match row {
            RoadsRow::TerrainChunk(r) => self.without_chunk(r, now),
            RoadsRow::PavedTile(r) => self.without_paved(r, now),
            RoadsRow::ClaimTile(r) => self.without_claim_tile(r, now),
            RoadsRow::ClaimState(r) => self.without_claim_state(r, now),
            RoadsRow::Location(r) => self.without_location(r, now),
            RoadsRow::Resource(r) => self.without_resource(r),
            RoadsRow::Other => self,
        }
    }
}

/// A terrain chunk came.
pub fn apply_terrain_chunk(grid: &mut RoadsRegionGrid, r: TerrainChunkRow, now_ms: i64)
    requires
        old(grid).wf(),
    ensures
        final(grid).wf(),
        old(grid)@.ready ==> is_best_dimension(final(grid)@.dims, final(grid)@.writer.dimension),
        final(grid)@ == old(grid)@.with_chunk(r, final(grid)@.writer.dimension, now_ms),
{
    let n: u64 = match grid.dim_hist.get(r.dimension as u64) {
        Some(n) => *n,
        None => 0,
    };
    let _ = grid.dim_hist.insert(
        r.dimension as u64,
        if n < u64::MAX {
            n + 1
        } else {
            n
        },
    );
    let _ = grid.terrain_chunks.insert(key_of_pair(r.chunk_x, r.chunk_z), r.dimension);
    if grid.ready {
        let dim: u32 = grid.best_terrain_dimension();
        grid.terrain_writer.set_best_dimension(dim);
        if r.dimension == dim {
            grid.terrain_writer.write_chunk(
                grid.region,
                &mut grid.terrain,
                r.chunk_x,
                r.chunk_z,
                r.dimension,
                r.elevations.as_slice(),
                r.original_elevations.as_slice(),
                r.water_levels.as_slice(),
                r.water_body_types.as_slice(),
            );
            grid.resource_map.fill_water_from_terrain(&grid.terrain);
            grid.bump_generation(now_ms);
        }
    } else {
        grid.pending_terrain.push(r);
    }
}

/// A terrain chunk went.
pub fn remove_terrain_chunk(grid: &mut RoadsRegionGrid, r: &TerrainChunkRow, now_ms: i64)
    requires
        old(grid).wf(),
    ensures
        final(grid).wf(),
        final(grid)@ == old(grid)@.without_chunk(*r, now_ms),
{
    grid.terrain_writer.clear_chunk(&mut grid.terrain, r.chunk_x, r.chunk_z);
    let _ = grid.terrain_chunks.remove(key_of_pair(r.chunk_x, r.chunk_z));
    grid.bump_generation(now_ms);
}

/// Writes the cell of an entity anew and shows its paving.
fn rejoin(grid: &mut RoadsRegionGrid, e: u64)
    requires
        old(grid).wf(),
    ensures
        final(grid).wf(),
        final(grid)@ == old(grid)@.rejoined(e),
{
    grid.join.recompute_cell(grid.region, &mut grid.overlay, &mut grid.claim_index, e);
    assert(grid@ =~= old(grid)@.rejoined(e));
}

/// Shows the paving of an entity among the resources.
fn show_paving(grid: &mut RoadsRegionGrid, e: u64)
    requires
        old(grid).wf(),
    ensures
        final(grid).wf(),
        final(grid)@ == old(grid)@.paving_shown(e),
{
    if let Some(t) = grid.join.location_by_entity.get(e) {
        if let Some(p) = grid.join.paving_by_entity.get(e) {
            grid.resource_map.stamp_paving(t.0, t.1, *p);
        }
    }
}

/// No longer shows the paving of an entity among the resources.
fn hide_paving(grid: &mut RoadsRegionGrid, e: u64)
    requires
        old(grid).wf(),
    ensures
        final(grid).wf(),
        final(grid)@ == old(grid)@.paving_hidden(e),
{
    if let Some(t) = grid.join.location_by_entity.get(e) {
        if let Some(p) = grid.join.paving_by_entity.get(e) {
            grid.resource_map.clear_paving(t.0, t.1, *p);
        }
    }
}

/// A paved tile came.
pub fn apply_paved_tile(grid: &mut RoadsRegionGrid, r: PavedTileRow, now_ms: i64)
    requires
        old(grid).wf(),
    ensures
        final(grid).wf(),
        final(grid)@ == old(grid)@.with_paved(r, now_ms),
{
    let _ = grid.join.paving_by_entity.insert(r.entity_id, r.tile_type_id);
    rejoin(grid, r.entity_id);
    show_paving(grid, r.entity_id);
    grid.bump_generation(now_ms);
}

/// A paved tile went.
pub fn remove_paved_tile(grid: &mut RoadsRegionGrid, r: PavedTileRow, now_ms: i64)
    requires
        old(grid).wf(),
    ensures
        final(grid).wf(),
        final(grid)@ == old(grid)@.without_paved(r, now_ms),
{
    hide_paving(grid, r.entity_id);
    let _ = grid.join.paving_by_entity.remove(r.entity_id);
    grid.join.clear_paving_at(grid.region, &mut grid.overlay, r.entity_id);
    grid.bump_generation(now_ms);
}

/// A tile of a claim came.
pub fn apply_claim_tile(grid: &mut RoadsRegionGrid, r: ClaimTileRow, now_ms: i64)
    requires
        old(grid).wf(),
    ensures
        final(grid).wf(),
        final(grid)@ == old(grid)@.with_claim_tile(r, now_ms),
{
    let _ = grid.join.claim_by_entity.insert(r.entity_id, r.claim_id);
    rejoin(grid, r.entity_id);
    grid.bump_generation(now_ms);
}

/// A tile of a claim went.
pub fn remove_claim_tile(grid: &mut RoadsRegionGrid, r: ClaimTileRow, now_ms: i64)
    requires
        old(grid).wf(),
    ensures
        final(grid).wf(),
        final(grid)@ == old(grid)@.without_claim_tile(r, now_ms),
{
    let _ = grid.join.claim_by_entity.remove(r.entity_id);
    grid.join.clear_claim_at(grid.region, &mut grid.overlay, r.entity_id);
    grid.bump_generation(now_ms);
}

/// A claim came.
pub fn apply_claim_state(grid: &mut RoadsRegionGrid, r: ClaimStateRoadsRow, now_ms: i64)
    requires
        old(grid).wf(),
    ensures
        final(grid).wf(),
        final(grid)@ == old(grid)@.with_claim_state(r, now_ms),
{
    if r.neutral {
        let _ = grid.join.neutral_claims.insert(r.entity_id, ());
    } else {
        let _ = grid.join.neutral_claims.remove(r.entity_id);
    }
    grid.bump_generation(now_ms);
}

/// A claim went.
pub fn remove_claim_state(grid: &mut RoadsRegionGrid, r: ClaimStateRoadsRow, now_ms: i64)
    requires
        old(grid).wf(),
    ensures
        final(grid).wf(),
        final(grid)@ == old(grid)@.without_claim_state(r, now_ms),
{
    let _ = grid.join.neutral_claims.remove(r.entity_id);
    grid.bump_generation(now_ms);
}

/// A place of an entity came.
pub fn apply_location(grid: &mut RoadsRegionGrid, r: LocationRoadsRow, now_ms: i64)
    requires
        old(grid).wf(),
    ensures
        final(grid).wf(),
        final(grid)@ == old(grid)@.with_location(r, now_ms),
{
    if r.dimension != OVERWORLD_DIMENSION {
        return ;
    }
    let _ = grid.join.location_by_entity.insert(r.entity_id, (r.x, r.z));
    grid.harvestable.set_location(r.entity_id, r.x, r.z);
    grid.resource_map.set_location(r.entity_id, r.x, r.z);
    rejoin(grid, r.entity_id);
    show_paving(grid, r.entity_id);
    grid.bump_generation(now_ms);
}

/// A place of an entity went.
pub fn remove_location(grid: &mut RoadsRegionGrid, r: LocationRoadsRow, now_ms: i64)
    requires
        old(grid).wf(),
    ensures
        final(grid).wf(),
        final(grid)@ == old(grid)@.without_location(r, now_ms),
{
    if r.dimension == OVERWORLD_DIMENSION {
        let _ = grid.join.location_by_entity.remove(r.entity_id);
        grid.harvestable.clear_location(r.entity_id);
        grid.resource_map.clear_location(r.entity_id);
    }
    grid.bump_generation(now_ms);
}

/// A resource came.
pub fn apply_resource(grid: &mut RoadsRegionGrid, r: &ResourceRow)
    requires
        old(grid).wf(),
    ensures
        final(grid).wf(),
        final(grid)@ == old(grid)@.with_resource(*r),
{
    let loc: Option<(i32, i32)> = match grid.join.location_by_entity.get(r.entity_id) {
        Some(t) => Some(*t),
        None => None,
    };
    grid.harvestable.upsert(r.entity_id, r.resource_id, r.direction_index, loc);
    grid.resource_map.upsert(r.entity_id, r.resource_id, r.direction_index, loc);
}

/// A resource went.
pub fn remove_resource(grid: &mut RoadsRegionGrid, r: &ResourceRow)
    requires
        old(grid).wf(),
    ensures
        final(grid).wf(),
        final(grid)@ == old(grid)@.without_resource(*r),
{
    grid.harvestable.delete(r.entity_id);
    grid.resource_map.delete(r.entity_id);
}

/// Writes the terrain that waited, for the dimension to show. Called once the
/// region is filled.
pub fn finalize_terrain_seed(grid: &mut RoadsRegionGrid)
    requires
        old(grid).wf(),
    ensures
        final(grid).wf(),
        is_best_dimension(old(grid)@.dims, final(grid)@.writer.dimension),
        final(grid)@ == old(grid)@.terrain_seeded(final(grid)@.writer.dimension),
{
    let dim: u32 = grid.best_terrain_dimension();
    grid.terrain_writer.set_best_dimension(dim);
    let mut rows: Vec<TerrainChunkRow> = Vec::new();
    std::mem::swap(&mut rows, &mut grid.pending_terrain);
    let ghost start = grid@;
    assert(start =~= (GridModel { pending: Seq::empty(), ..old(grid)@ }).showing(dim));
    let mut i: usize = 0;
    while i < rows.len()
        invariant
            grid.wf(),
            i <= rows@.len(),
            start.writer.dimension == dim,
            grid@.writer.dimension == dim,
            grid@ == start.flushed(rows@, dim, i as nat),
        decreases rows.len() - i,
    {
        let r = &rows[i];
        if r.dimension == dim {
            let ghost before = grid@;
            grid.terrain_writer.write_chunk(
                grid.region,
                &mut grid.terrain,
                r.chunk_x,
                r.chunk_z,
                r.dimension,
                r.elevations.as_slice(),
                r.original_elevations.as_slice(),
                r.water_levels.as_slice(),
                r.water_body_types.as_slice(),
            );
            assert(grid@ =~= before.chunk_written(*r));
        }
        i += 1;
    }
    grid.resource_map.fill_water_from_terrain(&grid.terrain);
}

/// Whether a resource can be read by position.
pub open spec fn by_position(meta: RoadsTableMeta, input: RowInput) -> bool {
    match meta.resource_fast {
        Some(f) => f.within(input.bytes@.len()),
        None => false,
    }
}

/// What a resource row says: by position where the layout allows it, else by
/// its cells.
pub open spec fn reads_resource(meta: RoadsTableMeta, input: RowInput, r: ResourceRow) -> bool {
    if by_position(meta, input) {
        meta.resource_fast matches Some(f) && f.reads(input.bytes@, r)
    } else {
        meta.resource matches Some(cols) && input.cells matches Some(c) && r.reads(c@, cols)
    }
}

/// Why a resource row cannot be read.
pub open spec fn resource_error(meta: RoadsTableMeta, input: RowInput) -> Option<DecodeError> {
    if by_position(meta, input) {
        None
    } else {
        match (meta.resource, input.cells) {
            (None, _) => Some(plain_error(RESOURCE_TABLE, Problem::NoTable)),
            (Some(_), None) => Some(plain_error(RESOURCE_TABLE, Problem::Unreadable)),
            (Some(cols), Some(c)) => ResourceRow::error(c@, cols),
        }
    }
}

/// What a row of a table says.
pub open spec fn reads_row(meta: RoadsTableMeta, table: Seq<char>, input: RowInput, row: RoadsRow) -> bool {
    if table == TERRAIN_CHUNK_TABLE@ {
        row matches RoadsRow::TerrainChunk(r) && input.cells matches Some(c) && r.reads(c@, meta.terrain_chunk)
    } else if table == PAVED_TILE_TABLE@ {
        row matches RoadsRow::PavedTile(r) && input.cells matches Some(c) && r.reads(c@, meta.paved_tile)
    } else if table == CLAIM_TILE_TABLE@ {
        row matches RoadsRow::ClaimTile(r) && input.cells matches Some(c) && r.reads(c@, meta.claim_tile)
    } else if table == CLAIM_STATE_TABLE@ {
        row matches RoadsRow::ClaimState(r) && input.cells matches Some(c) && r.reads(c@, meta.claim_state)
    } else if table == LOCATION_TABLE@ {
        row matches RoadsRow::Location(r) && input.cells matches Some(c) && r.reads(c@, meta.location)
    } else if table == RESOURCE_TABLE@ {
        row matches RoadsRow::Resource(r) && reads_resource(meta, input, r)
    } else {
        row is Other
    }
}

/// Why a row of a table cannot be read.
pub open spec fn row_error(meta: RoadsTableMeta, table: Seq<char>, input: RowInput) -> Option<DecodeError> {
    if table == TERRAIN_CHUNK_TABLE@ {
        match input.cells {
            None => Some(plain_error(TERRAIN_CHUNK_TABLE, Problem::Unreadable)),
            Some(c) => TerrainChunkRow::error(c@, meta.terrain_chunk),
        }
    } else if table == PAVED_TILE_TABLE@ {
        match input.cells {
            None => Some(plain_error(PAVED_TILE_TABLE, Problem::Unreadable)),
            Some(c) => PavedTileRow::error(c@, meta.paved_tile),
        }
    } else if table == CLAIM_TILE_TABLE@ {
        match input.cells {
            None => Some(plain_error(CLAIM_TILE_TABLE, Problem::Unreadable)),
            Some(c) => ClaimTileRow::error(c@, meta.claim_tile),
        }
    } else if table == CLAIM_STATE_TABLE@ {
        match input.cells {
            None => Some(plain_error(CLAIM_STATE_TABLE, Problem::Unreadable)),
            Some(c) => ClaimStateRoadsRow::error(c@, meta.claim_state),
        }
    } else if table == LOCATION_TABLE@ {
        match input.cells {
            None => Some(plain_error(LOCATION_TABLE, Problem::Unreadable)),
            Some(c) => LocationRoadsRow::error(c@, meta.location),
        }
    } else if table == RESOURCE_TABLE@ {
        resource_error(meta, input)
    } else {
        None
    }
}

/// Whether a row has the columns of its table.
pub open spec fn row_fits(meta: RoadsTableMeta, table: Seq<char>, input: RowInput) -> bool {
    match input.cells {
        None => true,
        Some(c) => if table == TERRAIN_CHUNK_TABLE@ {
            meta.terrain_chunk.fit(c@.len())
        } else if table == PAVED_TILE_TABLE@ {
            meta.paved_tile.fit(c@.len())
        } else if table == CLAIM_TILE_TABLE@ {
            meta.claim_tile.fit(c@.len())
        } else if table == CLAIM_STATE_TABLE@ {
            meta.claim_state.fit(c@.len())
        } else if table == LOCATION_TABLE@ {
            meta.location.fit(c@.len())
        } else if table == RESOURCE_TABLE@ {
            meta.resource matches Some(cols) ==> cols.fit(c@.len())
        } else {
            true
        },
    }
}

/// Reads a resource row.
fn decode_resource_row(meta: &RoadsTableMeta, input: &RowInput) -> (r: Result<ResourceRow, DecodeError>)
    requires
        meta.resource matches Some(cols) ==> input.cells matches Some(c) ==> cols.fit(c@.len()),
    ensures
        match r {
            Ok(row) => reads_resource(*meta, *input, row) && resource_error(*meta, *input) is None,
            Err(e) => resource_error(*meta, *input) == Some(e),
        },
{
    if let Some(fast) = &meta.resource_fast {
        if let Some(row) = fast.decode(input.bytes.as_slice()) {
            return Ok(row);
        }
    }
    match (&meta.resource, &input.cells) {
        (None, _) => Err(error(RESOURCE_TABLE, Problem::NoTable)),
        (Some(_), None) => Err(error(RESOURCE_TABLE, Problem::Unreadable)),
        (Some(cols), Some(c)) => decode_resource_with_fields(c.as_slice(), *cols),
    }
}

/// Reads a row of a table.
pub fn decode_roads_row(meta: &RoadsTableMeta, table: &str, input: &RowInput) -> (r: Result<RoadsRow, DecodeError>)
    requires
        row_fits(*meta, table@, *input),
    ensures
        match r {
            Ok(row) => reads_row(*meta, table@, *input, row) && row_error(*meta, table@, *input) is None,
            Err(e) => row_error(*meta, table@, *input) == Some(e),
        },
{
    if same_text(table, TERRAIN_CHUNK_TABLE) {
        return match &input.cells {
            None => Err(error(TERRAIN_CHUNK_TABLE, Problem::Unreadable)),
            Some(c) => match decode_terrain_chunk(c.as_slice(), meta.terrain_chunk) {
                Ok(r) => Ok(RoadsRow::TerrainChunk(r)),
                Err(e) => Err(e),
            },
        };
    }
    if same_text(table, PAVED_TILE_TABLE) {
        return match &input.cells {
            None => Err(error(PAVED_TILE_TABLE, Problem::Unreadable)),
            Some(c) => match decode_paved_tile(c.as_slice(), meta.paved_tile) {
                Ok(r) => Ok(RoadsRow::PavedTile(r)),
                Err(e) => Err(e),
            },
        };
    }
    if same_text(table, CLAIM_TILE_TABLE) {
        return match &input.cells {
            None => Err(error(CLAIM_TILE_TABLE, Problem::Unreadable)),
            Some(c) => match decode_claim_tile(c.as_slice(), meta.claim_tile) {
                Ok(r) => Ok(RoadsRow::ClaimTile(r)),
                Err(e) => Err(e),
            },
        };
    }
    if same_text(table, CLAIM_STATE_TABLE) {
        return match &input.cells {
            None => Err(error(CLAIM_STATE_TABLE, Problem::Unreadable)),
            Some(c) => match decode_claim_state_roads(c.as_slice(), meta.claim_state) {
                Ok(r) => Ok(RoadsRow::ClaimState(r)),
                Err(e) => Err(e),
            },
        };
    }
    if same_text(table, LOCATION_TABLE) {
        return match &input.cells {
            None => Err(error(LOCATION_TABLE, Problem::Unreadable)),
            Some(c) => match decode_location_roads(c.as_slice(), meta.location) {
                Ok(r) => Ok(RoadsRow::Location(r)),
                Err(e) => Err(e),
            },
        };
    }
    if same_text(table, RESOURCE_TABLE) {
        return match decode_resource_row(meta, input) {
            Ok(r) => Ok(RoadsRow::Resource(r)),
            Err(e) => Err(e),
        };
    }
    Ok(RoadsRow::Other)
}

/// A row came.
pub fn apply_roads_insert(grid: &mut RoadsRegionGrid, row: RoadsRow, now_ms: i64)
    requires
        old(grid).wf(),
    ensures
        final(grid).wf(),
        row is TerrainChunk && old(grid)@.ready ==> is_best_dimension(
            final(grid)@.dims,
            final(grid)@.writer.dimension,
        ),
        final(grid)@ == old(grid)@.with_row(row, final(grid)@.writer.dimension, now_ms),
{
    match row {
        RoadsRow::TerrainChunk(r) => apply_terrain_chunk(grid, r, now_ms),
        RoadsRow::PavedTile(r) => apply_paved_tile(grid, r, now_ms),
        RoadsRow::ClaimTile(r) => apply_claim_tile(grid, r, now_ms),
        RoadsRow::ClaimState(r) => apply_claim_state(grid, r, now_ms),
        RoadsRow::Location(r) => apply_location(grid, r, now_ms),
        RoadsRow::Resource(r) => apply_resource(grid, &r),
        RoadsRow::Other => {},
    }
}

/// A row went.
pub fn apply_roads_delete(grid: &mut RoadsRegionGrid, row: &RoadsRow, now_ms: i64)
    requires
        old(grid).wf(),
    ensures
        final(grid).wf(),
        final(grid)@ == old(grid)@.without_row(*row, now_ms),
{
    match row {
        RoadsRow::TerrainChunk(r) => remove_terrain_chunk(grid, r, now_ms),
        RoadsRow::PavedTile(r) => remove_paved_tile(grid, *r, now_ms),
        RoadsRow::ClaimTile(r) => remove_claim_tile(grid, *r, now_ms),
        RoadsRow::ClaimState(r) => remove_claim_state(grid, *r, now_ms),
        RoadsRow::Location(r) => remove_location(grid, *r, now_ms),
        RoadsRow::Resource(r) => remove_resource(grid, r),
        RoadsRow::Other => {},
    }
}

/// The maps after the first `n` of some rows went.
pub open spec fn rows_gone(m: GridModel, rows: Seq<RoadsRow>, now: i64, n: nat) -> GridModel
    decreases n,
{
    if n == 0 {
        m
    } else {
        rows_gone(m, rows, now, (n - 1) as nat).without_row(rows[n - 1], now)
    }
}

/// The maps after the first `n` of some rows came, where `shown` is the
/// dimension that is shown after each.
pub open spec fn rows_came(m: GridModel, rows: Seq<RoadsRow>, shown: Seq<u32>, now: i64, n: nat) -> GridModel
    decreases n,
{
    if n == 0 {
        m
    } else {
        rows_came(m, rows, shown, now, (n - 1) as nat).with_row(rows[n - 1], shown[n - 1], now)
    }
}

/// Whether a dimension may be shown after each of the rows that came.
pub open spec fn may_show(m: GridModel, rows: Seq<RoadsRow>, shown: Seq<u32>, now: i64) -> bool {
    &&& shown.len() == rows.len()
    &&& forall|i: int|
        0 <= i < rows.len() && m.ready && #[trigger] rows[i] is TerrainChunk ==> is_best_dimension(
            rows_came(m, rows, shown, now, (i + 1) as nat).dims,
            shown[i],
        )
}

/// The rows of a batch as far as they were applied: those that went, then those
/// that came, each read from its input.
pub struct Applied {
    pub gone: Seq<RoadsRow>,
    pub came: Seq<RoadsRow>,
    pub shown: Seq<u32>,
}

/// Whether some rows are what the first inputs of a list say.
pub open spec fn read_from(meta: RoadsTableMeta, table: Seq<char>, inputs: Seq<RowInput>, rows: Seq<RoadsRow>) -> bool {
    &&& rows.len() <= inputs.len()
    &&& forall|i: int| 0 <= i < rows.len() ==> reads_row(meta, table, inputs[i], #[trigger] rows[i])
}

/// Whether a batch was applied up to the first row that cannot be read.
pub open spec fn batch_applied(
    before: GridModel,
    after: GridModel,
    meta: RoadsTableMeta,
    table: Seq<char>,
    deletes: Seq<RowInput>,
    inserts: Seq<RowInput>,
    now: i64,
    r: Result<(), DecodeError>,
    a: Applied,
) -> bool {
    let gone = rows_gone(before, a.gone, now, a.gone.len());
    &&& read_from(meta, table, deletes, a.gone)
    &&& read_from(meta, table, inserts, a.came)
    &&& may_show(gone, a.came, a.shown, now)
    &&& after == rows_came(gone, a.came, a.shown, now, a.came.len())
    &&& match r {
        Ok(_) => a.gone.len() == deletes.len() && a.came.len() == inserts.len(),
        Err(e) => if a.gone.len() < deletes.len() {
            a.came.len() == 0 && row_error(meta, table, deletes[a.gone.len() as int]) == Some(e)
        } else {
            a.came.len() < inserts.len() && row_error(meta, table, inserts[a.came.len() as int]) == Some(e)
        },
    }
}

/// Applies the rows of a table in a batch: first those that went, then those
/// that came. The first row that cannot be read ends it with an error; the
/// rows before it stay applied.
pub fn apply_roads_rows(
    grid: &mut RoadsRegionGrid,
    meta: &RoadsTableMeta,
    table: &str,
    deletes: &[RowInput],
    inserts: &[RowInput],
    now_ms: i64,
) -> (r: Result<(), DecodeError>)
    requires
        old(grid).wf(),
        forall|i: int| 0 <= i < deletes@.len() ==> row_fits(*meta, table@, #[trigger] deletes@[i]),
        forall|i: int| 0 <= i < inserts@.len() ==> row_fits(*meta, table@, #[trigger] inserts@[i]),
    ensures
        final(grid).wf(),
        exists|a: Applied|
            batch_applied(old(grid)@, final(grid)@, *meta, table@, deletes@, inserts@, now_ms, r, a),
{
    let ghost start = grid@;
    let ghost mut gone: Seq<RoadsRow> = Seq::empty();
    let mut i: usize = 0;
    while i < deletes.len()
        invariant
            grid.wf(),
            start == old(grid)@,
            i <= deletes@.len(),
            gone.len() == i,
            read_from(*meta, table@, deletes@, gone),
            grid@ == rows_gone(start, gone, now_ms, gone.len()),
            forall|i: int| 0 <= i < deletes@.len() ==> row_fits(*meta, table@, #[trigger] deletes@[i]),
        decreases deletes.len() - i,
    {
        match decode_roads_row(meta, table, &deletes[i]) {
            Ok(row) => {
                apply_roads_delete(grid, &row, now_ms);
                proof {
                    let more = gone.push(row);
                    lemma_gone_prefix(start, gone, more, now_ms, gone.len());
                    gone = more;
                }
            },
            Err(e) => {
                proof {
                    let a = Applied { gone, came: Seq::empty(), shown: Seq::empty() };
                    assert(batch_applied(
                        start,
                        grid@,
                        *meta,
                        table@,
                        deletes@,
                        inserts@,
                        now_ms,
                        Err(e),
                        a,
                    ));
                }
                return Err(e);
            },
        }
        i += 1;
    }
    let ghost middle = grid@;
    let ghost mut came: Seq<RoadsRow> = Seq::empty();
    let ghost mut shown: Seq<u32> = Seq::empty();
    let mut j: usize = 0;
    while j < inserts.len()
        invariant
            grid.wf(),
            start == old(grid)@,
            gone.len() == deletes@.len(),
            read_from(*meta, table@, deletes@, gone),
            middle == rows_gone(start, gone, now_ms, gone.len()),
            j <= inserts@.len(),
            came.len() == j,
            read_from(*meta, table@, inserts@, came),
            may_show(middle, came, shown, now_ms),
            grid@ == rows_came(middle, came, shown, now_ms, came.len()),
            grid@.ready == middle.ready,
            forall|i: int| 0 <= i < inserts@.len() ==> row_fits(*meta, table@, #[trigger] inserts@[i]),
        decreases inserts.len() - j,
    {
        match decode_roads_row(meta, table, &inserts[j]) {
            Ok(row) => {
                let ghost kept = row;
                apply_roads_insert(grid, row, now_ms);
                proof {
                    let more = came.push(kept);
                    let more_shown = shown.push(grid@.writer.dimension);
                    assert forall|n: nat| n <= came.len() implies rows_came(middle, came, shown, now_ms, n)
                        == #[trigger] rows_came(middle, more, more_shown, now_ms, n) by {
                        lemma_came_prefix(middle, came, more, shown, more_shown, now_ms, n);
                    }
                    lemma_came_prefix(middle, came, more, shown, more_shown, now_ms, came.len());
                    assert(more.len() - 1 == came.len());
                    assert(more[more.len() - 1] == kept);
                    assert(more_shown[more.len() - 1] == grid@.writer.dimension);
                    assert(grid@ == rows_came(middle, more, more_shown, now_ms, more.len()));
                    assert forall|i: int|
                        0 <= i < more.len() && middle.ready && #[trigger] more[i] is TerrainChunk implies
                        is_best_dimension(
                        rows_came(middle, more, more_shown, now_ms, (i + 1) as nat).dims,
                        more_shown[i],
                    ) by {
                        if i < came.len() {
                            assert(came[i] is TerrainChunk);
                        }
                    }
                    came = more;
                    shown = more_shown;
                }
            },
            Err(e) => {
                proof {
                    let a = Applied { gone, came, shown };
                    assert(batch_applied(
                        start,
                        grid@,
                        *meta,
                        table@,
                        deletes@,
                        inserts@,
                        now_ms,
                        Err(e),
                        a,
                    ));
                }
                return Err(e);
            },
        }
        j += 1;
    }
    proof {
        let a = Applied { gone, came, shown };
        assert(batch_applied(start, grid@, *meta, table@, deletes@, inserts@, now_ms, Ok(()), a));
    }
    Ok(())
}

/// Rows that came later do not change what the first ones did.
proof fn lemma_gone_prefix(m: GridModel, a: Seq<RoadsRow>, b: Seq<RoadsRow>, now: i64, n: nat)
    requires
        n <= a.len() <= b.len(),
        forall|i: int| 0 <= i < a.len() ==> a[i] == b[i],
    ensures
        rows_gone(m, a, now, n) == rows_gone(m, b, now, n),
    decreases n,
{
    if n > 0 {
        lemma_gone_prefix(m, a, b, now, (n - 1) as nat);
    }
}

/// Rows that came later do not change what the first ones did.
proof fn lemma_came_prefix(
    m: GridModel,
    a: Seq<RoadsRow>,
    b: Seq<RoadsRow>,
    sa: Seq<u32>,
    sb: Seq<u32>,
    now: i64,
    n: nat,
)
    requires
        n <= a.len() <= b.len(),
        n <= sa.len() <= sb.len(),
        forall|i: int| 0 <= i < a.len() ==> a[i] == b[i],
        forall|i: int| 0 <= i < sa.len() ==> sa[i] == sb[i],
    ensures
        rows_came(m, a, sa, now, n) == rows_came(m, b, sb, now, n),
    decreases n,
{
    if n > 0 {
        lemma_came_prefix(m, a, b, sa, sb, now, (n - 1) as nat);
    }
}

/// The id that a row that goes has in one of its columns: eight bytes, or a
/// number.
pub open spec fn deleted_id(cell: Cell) -> Result<u64, DecodeError> {
    match cell {
        Cell::Bytea(Some(_)) => u64_in(cell, "entity_id"),
        Cell::Bigint(Some(n)) => Ok(
            (if n < 0 {
                n + 0x1_0000_0000_0000_0000
            } else {
                n as int
            }) as u64,
        ),
        _ => Err(plain_error("entity_id", Problem::WrongType)),
    }
}

/// The id that a row that goes has in one of its columns.
pub fn decode_entity_id_delete(cells: &[Cell], entity_col: usize) -> (r: Result<u64, DecodeError>)
    requires
        entity_col < cells@.len(),
    ensures
        r == deleted_id(cells@[entity_col as int]),
{
    match &cells[entity_col] {
        Cell::Bytea(Some(_)) => cell_u64(&cells[entity_col], "entity_id"),
        Cell::Bigint(Some(n)) => if *n < 0 {
            Ok(u64::MAX - (-(*n + 1)) as u64)
        } else {
            Ok(*n as u64)
        },
        _ => Err(error("entity_id", Problem::WrongType)),
    }
}

/// Whichever comes first, where a paved tile is or what paves it, the maps end
/// up the same.
pub proof fn law_paving_and_place_commute(m: GridModel, paved: PavedTileRow, place: LocationRoadsRow, now: i64)
    requires
        m.overlay.len() == OVERLAY_CELLS,
        paved.entity_id == place.entity_id,
        place.dimension == OVERWORLD_DIMENSION,
        !m.paving.dom().contains(paved.entity_id),
        !m.place.dom().contains(place.entity_id),
        !m.claim.dom().contains(place.entity_id),
    ensures
        m.with_paved(paved, now).with_location(place, now) == m.with_location(place, now).with_paved(paved, now),
{
    let e = paved.entity_id;
    lemma_nothing_known(m.overlay, m.region, Some((place.x, place.z)));
    let a = m.with_paved(paved, now).with_location(place, now);
    let b = m.with_location(place, now).with_paved(paved, now);
    assert(a.overlay =~= b.overlay);
    assert(a =~= b);
}

/// Whichever comes first, where a tile of a claim is or which claim it belongs
/// to, the maps end up the same.
pub proof fn law_claim_and_place_commute(m: GridModel, tile: ClaimTileRow, place: LocationRoadsRow, now: i64)
    requires
        m.overlay.len() == OVERLAY_CELLS,
        tile.entity_id == place.entity_id,
        place.dimension == OVERWORLD_DIMENSION,
        !m.paving.dom().contains(tile.entity_id),
        !m.place.dom().contains(place.entity_id),
        !m.claim.dom().contains(place.entity_id),
    ensures
        m.with_claim_tile(tile, now).with_location(place, now) == m.with_location(place, now).with_claim_tile(tile, now),
{
    lemma_nothing_known(m.overlay, m.region, Some((place.x, place.z)));
    let a = m.with_claim_tile(tile, now).with_location(place, now);
    let b = m.with_location(place, now).with_claim_tile(tile, now);
    assert(a.overlay =~= b.overlay);
    assert(a =~= b);
}

/// A paved tile that came and went leaves no trace in the overlay, where the
/// tile was not paved before.
pub proof fn law_removed_paving_leaves_no_trace(m: GridModel, r: PavedTileRow, now: i64)
    requires
        m.overlay.len() == OVERLAY_CELLS,
        !m.paving.dom().contains(r.entity_id),
        !m.claim.dom().contains(r.entity_id),
        cell_number(m.region, known(m.place, r.entity_id)) matches Some(n) ==> paving_of(m.overlay[n]) == 0,
    ensures
        m.with_paved(r, now).without_paved(r, now).overlay == m.overlay,
        m.with_paved(r, now).without_paved(r, now).paving == m.paving,
        m.with_paved(r, now).without_paved(r, now).claims == m.claims,
{
    let after = m.with_paved(r, now).without_paved(r, now);
    assert(after.paving =~= m.paving);
    let place = known(m.place, r.entity_id);
    if let Some(n) = cell_number(m.region, place) {
        let cell = m.overlay[n];
        assert(overlay_word(claim_of(cell), 0) == cell);
        assert(after.overlay =~= m.overlay);
    }
}

/// Writing a cell of which nothing is known leaves it as it is.
proof fn lemma_nothing_known(overlay: Seq<u32>, region: u16, place: Option<(i32, i32)>)
    requires
        overlay.len() == OVERLAY_CELLS,
    ensures
        joined_overlay(overlay, region, place, None, None) == overlay,
{
    if let Some(n) = cell_number(region, place) {
        let cell = overlay[n];
        let word = overlay_word(claim_of(cell), paving_of(cell));
        assert(word == cell);
        assert(overlay.update(n, word) =~= overlay);
    }
}

} // verus!
