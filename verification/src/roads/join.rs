//! Joins the rows of an entity into the overlay, and terrain chunks into the
//! terrain.
//!
//! Where a tile is, what paves it and which claim it belongs to come in rows of
//! three tables, in any order. The join keeps each of them by entity and
//! writes a cell as soon as the place is known; each write touches only its
//! half of the cell.

use vstd::prelude::*;

use crate::id_table::{key_of_pair, key_pair, IdTable};
use crate::int_math::div_floor;
use crate::roads::coords::{
    in_region, in_super_grid, region_cell, region_corner, region_origin, world_to_local, CHUNKS_PER_SIDE,
    DEFAULT_CHUNK_SIZE, REGION_SIDE, SUPER_SIDE,
};
use crate::roads::grid::{
    claim_of, law_overlay_halves, pack_terrain, paving_of, set_claim_index, set_paving, terrain_word,
    SuperHexTerrainGrid, TileOverlayGrid, TERRAIN_CELLS,
};
use crate::roads::index::{claim_slot, with_claim, ClaimIndexTable};

verus! {

/// The dimension of the world's surface.
pub const OVERWORLD_DIMENSION: u32 = 1;

/// Side of a terrain chunk in super hexes, where its data does not tell.
pub const DEFAULT_CELL_SIDE: i32 = 32;

/// Value of an id, where it has one.
pub open spec fn known<V>(m: Map<u64, V>, id: u64) -> Option<V> {
    if m.dom().contains(id) {
        Some(m[id])
    } else {
        None
    }
}

/// Position of a world tile in the overlay of a region; `None` off the region.
pub open spec fn cell_number(region: u16, place: Option<(i32, i32)>) -> Option<int> {
    match place {
        Some(t) => {
            let lx = t.0 - region_corner(region as int).0;
            let lz = t.1 - region_corner(region as int).1;
            if in_region(lx, lz) {
                Some(lz * REGION_SIDE + lx)
            } else {
                None
            }
        },
        None => None,
    }
}

/// A paving type as a cell holds it: sixteen bits, 0 for a negative number.
pub open spec fn paving_bits(paving: i32) -> u16 {
    (if paving < 0 {
        0int
    } else {
        paving as int % 0x1_0000
    }) as u16
}

/// An overlay cell with given halves.
pub open spec fn overlay_word(claim_index: u16, paving: u16) -> u32 {
    (claim_index * 0x1_0000 + paving) as u32
}

/// A cell after its known halves are written.
pub open spec fn joined_cell(cell: u32, paving: Option<i32>, claim_index: Option<u16>) -> u32 {
    overlay_word(
        match claim_index {
            Some(i) => i,
            None => claim_of(cell),
        },
        match paving {
            Some(p) => paving_bits(p),
            None => paving_of(cell),
        },
    )
}

/// The overlay after the cell of an entity is written anew.
pub open spec fn joined_overlay(
    overlay: Seq<u32>,
    region: u16,
    place: Option<(i32, i32)>,
    paving: Option<i32>,
    claim_index: Option<u16>,
) -> Seq<u32> {
    match cell_number(region, place) {
        Some(n) => overlay.update(n, joined_cell(overlay[n], paving, claim_index)),
        None => overlay,
    }
}

/// The claims with an index after the cell of an entity is written anew.
pub open spec fn joined_claims(
    claims: Seq<u64>,
    region: u16,
    place: Option<(i32, i32)>,
    claim: Option<u64>,
) -> Seq<u64> {
    match (cell_number(region, place), claim) {
        (Some(_), Some(c)) => with_claim(claims, c),
        _ => claims,
    }
}

/// The index of a claim that is known.
pub open spec fn index_of_claim(claims: Seq<u64>, claim: Option<u64>) -> Option<u16> {
    match claim {
        Some(c) => Some(claim_slot(claims, c)),
        None => None,
    }
}

/// Writing the paving of a cell keeps its claim, and the other way round.
/// Writing the same twice is writing it once.
pub proof fn law_halves_are_independent(cell: u32, paving: i32, claim_index: u16)
    ensures
        claim_of(joined_cell(cell, Some(paving), None)) == claim_of(cell),
        paving_of(joined_cell(cell, Some(paving), None)) == paving_bits(paving),
        paving_of(joined_cell(cell, None, Some(claim_index))) == paving_of(cell),
        claim_of(joined_cell(cell, None, Some(claim_index))) == claim_index,
        joined_cell(joined_cell(cell, Some(paving), None), None, Some(claim_index)) == joined_cell(
            joined_cell(cell, None, Some(claim_index)),
            Some(paving),
            None,
        ),
        joined_cell(joined_cell(cell, Some(paving), None), None, Some(claim_index)) == joined_cell(
            cell,
            Some(paving),
            Some(claim_index),
        ),
        joined_cell(joined_cell(cell, Some(paving), Some(claim_index)), Some(paving), Some(claim_index)) == joined_cell(
            cell,
            Some(paving),
            Some(claim_index),
        ),
{
}

/// A cell is what its halves make.
proof fn lemma_cell_of_halves(cell: u32, claim_index: u16, paving: u16)
    requires
        claim_of(cell) == claim_index,
        paving_of(cell) == paving,
    ensures
        cell == overlay_word(claim_index, paving),
{
    let word = overlay_word(claim_index, paving);
    assert(claim_of(word) == claim_index);
    assert(paving_of(word) == paving);
    law_overlay_halves(cell, word);
}

/// What is known of each entity.
pub struct EntityJoinMaps {
    pub paving_by_entity: IdTable<i32>,
    pub claim_by_entity: IdTable<u64>,
    pub location_by_entity: IdTable<(i32, i32)>,
    pub neutral_claims: IdTable<()>,
}

impl EntityJoinMaps {
    /// Each map is well formed.
    pub open spec fn wf(&self) -> bool {
        &&& self.paving_by_entity.wf()
        &&& self.claim_by_entity.wf()
        &&& self.location_by_entity.wf()
        &&& self.neutral_claims.wf()
    }

    /// Where an entity is.
    pub open spec fn place(&self, entity_id: u64) -> Option<(i32, i32)> {
        known(self.location_by_entity@, entity_id)
    }

    /// Maps without entries.
    pub fn new() -> (r: Self)
        ensures
            r.wf(),
            r.paving_by_entity@ == Map::<u64, i32>::empty(),
            r.claim_by_entity@ == Map::<u64, u64>::empty(),
            r.location_by_entity@ == Map::<u64, (i32, i32)>::empty(),
            r.neutral_claims@ == Map::<u64, ()>::empty(),
    {
        EntityJoinMaps {
            paving_by_entity: IdTable::new(),
            claim_by_entity: IdTable::new(),
            location_by_entity: IdTable::new(),
            neutral_claims: IdTable::new(),
        }
    }

    /// Writes what is known of an entity into its cell. Without a place in the
    /// region nothing happens.
    pub fn recompute_cell(
        &self,
        region: u16,
        overlay: &mut TileOverlayGrid,
        claim_index: &mut ClaimIndexTable,
        entity_id: u64,
    )
        requires
            self.wf(),
            old(overlay).wf(),
            old(claim_index).wf(),
        ensures
            final(overlay).wf(),
            final(claim_index).wf(),
            final(claim_index)@ == joined_claims(
                old(claim_index)@,
                region,
                self.place(entity_id),
                known(self.claim_by_entity@, entity_id),
            ),
            final(overlay).words() == joined_overlay(
                old(overlay).words(),
                region,
                self.place(entity_id),
                known(self.paving_by_entity@, entity_id),
                index_of_claim(final(claim_index)@, known(self.claim_by_entity@, entity_id)),
            ),
    {
        let (x, z): (i32, i32) = match self.location_by_entity.get(entity_id) {
            Some(t) => *t,
            None => {
                return ;
            },
        };
        let (lx, lz): (i32, i32) = match world_to_local(region, x, z) {
            Some(l) => l,
            None => {
                return ;
            },
        };
        let paving: Option<u16> = match self.paving_by_entity.get(entity_id) {
            Some(p) => Some(
                if *p < 0 {
                    0
                } else {
                    (*p % 0x1_0000) as u16
                },
            ),
            None => None,
        };
        let index: Option<u16> = match self.claim_by_entity.get(entity_id) {
            Some(c) => Some(claim_index.alloc_or_lookup(*c)),
            None => None,
        };
        let mut cell: u32 = overlay.get(lx, lz);
        let ghost before = cell;
        if let Some(p) = paving {
            set_paving(&mut cell, p);
        }
        if let Some(i) = index {
            set_claim_index(&mut cell, i);
        }
        proof {
            lemma_cell_of_halves(cell, claim_of(cell), paving_of(cell));
        }
        put_cell(overlay, lx, lz, cell);
    }

    /// Takes the paving out of the cell of an entity.
    pub fn clear_paving_at(&self, region: u16, overlay: &mut TileOverlayGrid, entity_id: u64)
        requires
            self.wf(),
            old(overlay).wf(),
        ensures
            final(overlay).wf(),
            final(overlay).words() == joined_overlay(
                old(overlay).words(),
                region,
                self.place(entity_id),
                Some(0),
                None,
            ),
    {
        if let Some(t) = self.location_by_entity.get(entity_id) {
            if let Some((lx, lz)) = world_to_local(region, t.0, t.1) {
                let mut cell: u32 = overlay.get(lx, lz);
                set_paving(&mut cell, 0);
                proof {
                    lemma_cell_of_halves(cell, claim_of(cell), 0);
                }
                put_cell(overlay, lx, lz, cell);
            }
        }
    }

    /// Takes the claim out of the cell of an entity.
    pub fn clear_claim_at(&self, region: u16, overlay: &mut TileOverlayGrid, entity_id: u64)
        requires
            self.wf(),
            old(overlay).wf(),
        ensures
            final(overlay).wf(),
            final(overlay).words() == joined_overlay(
                old(overlay).words(),
                region,
                self.place(entity_id),
                None,
                Some(0),
            ),
    {
        if let Some(t) = self.location_by_entity.get(entity_id) {
            if let Some((lx, lz)) = world_to_local(region, t.0, t.1) {
                let mut cell: u32 = overlay.get(lx, lz);
                set_claim_index(&mut cell, 0);
                proof {
                    lemma_cell_of_halves(cell, 0, paving_of(cell));
                }
                put_cell(overlay, lx, lz, cell);
            }
        }
    }
}

impl Default for EntityJoinMaps {
    fn default() -> (r: Self)
        ensures
            r.wf(),
            r.paving_by_entity@ == Map::<u64, i32>::empty(),
            r.claim_by_entity@ == Map::<u64, u64>::empty(),
            r.location_by_entity@ == Map::<u64, (i32, i32)>::empty(),
            r.neutral_claims@ == Map::<u64, ()>::empty(),
    {
        EntityJoinMaps::new()
    }
}

/// Writes a cell of the overlay.
fn put_cell(overlay: &mut TileOverlayGrid, lx: i32, lz: i32, word: u32)
    requires
        old(overlay).wf(),
        in_region(lx as int, lz as int),
    ensures
        final(overlay).wf(),
        final(overlay).words() == old(overlay).words().update(lz * REGION_SIDE + lx, word),
{
    match overlay.cell_mut(lx, lz) {
        Some(cell) => {
            *cell = word;
        },
        None => {},
    }
}

/// Chunk coordinates of a terrain chunk.
#[derive(Debug, Clone, Copy, PartialEq, Eq, Structural)]
pub struct TerrainChunkKey {
    pub chunk_x: i32,
    pub chunk_z: i32,
}

/// Whether `n` is the square of `s`.
pub open spec fn is_side(n: int, s: int) -> bool {
    0 < s <= i32::MAX && s * s == n
}

/// Side of a chunk with `n` cells: the root of a square number, or the default.
pub open spec fn side_of(n: int) -> int {
    if exists|s: int| is_side(n, s) {
        choose|s: int| is_side(n, s)
    } else {
        DEFAULT_CELL_SIDE as int
    }
}

/// Whether chunk coordinates lie off the region, so that they count from the
/// world's corner and not from the region's.
pub open spec fn off_region(chunk_x: int, chunk_z: int) -> bool {
    !(0 <= chunk_x < CHUNKS_PER_SIDE && 0 <= chunk_z < CHUNKS_PER_SIDE)
}

/// What a chunk says of its cells.
#[verifier::ext_equal]
pub struct ChunkModel {
    pub elevations: Seq<i16>,
    pub original: Seq<i16>,
    pub water_levels: Seq<i16>,
    pub water_body_types: Seq<u8>,
}

impl ChunkModel {
    /// The packed cell `i`. Without an original elevation it is the current
    /// one, without a water level there is no water. Water body types come
    /// with one or with two bytes each.
    pub open spec fn word(self, i: int) -> u64 {
        let at = if self.water_body_types.len() == 2 * self.elevations.len() {
            2 * i
        } else {
            i
        };
        terrain_word(
            self.elevations[i],
            if i < self.original.len() {
                self.original[i]
            } else {
                self.elevations[i]
            },
            if i < self.water_levels.len() {
                self.water_levels[i]
            } else {
                i16::MIN
            },
            if at < self.water_body_types.len() {
                self.water_body_types[at]
            } else {
                0
            },
        ) as u64
    }

    /// The terrain after the first `n` cells of the chunk are written from the
    /// super hex `corner` on, in rows of `side`. Cells off the region are
    /// left out.
    pub open spec fn written(self, terrain: Seq<u64>, corner: (int, int), side: int, n: int) -> Seq<u64> {
        Seq::new(
            terrain.len(),
            |k: int|
                {
                    let dx = k % (SUPER_SIDE as int) - corner.0;
                    let dz = k / (SUPER_SIDE as int) - corner.1;
                    if 0 <= dx < side && 0 <= dz && dz * side + dx < n {
                        self.word(dz * side + dx)
                    } else {
                        terrain[k]
                    }
                },
        )
    }
}

/// The terrain after a square of `side` cells from `corner` on is set to zero.
pub open spec fn cleared(terrain: Seq<u64>, corner: (int, int), side: int) -> Seq<u64> {
    Seq::new(
        terrain.len(),
        |k: int|
            {
                let dx = k % (SUPER_SIDE as int) - corner.0;
                let dz = k / (SUPER_SIDE as int) - corner.1;
                if 0 <= dx < side && 0 <= dz < side {
                    0
                } else {
                    terrain[k]
                }
            },
    )
}

/// What the terrain writer goes by.
#[verifier::ext_equal]
pub struct WriterModel {
    pub dimension: u32,
    /// Chunk coordinates count from the world's corner.
    pub absolute: bool,
    pub origin: (i32, i32),
    pub side: i32,
    pub chunks: Map<u64, TerrainChunkKey>,
}

impl WriterModel {
    /// A writer for a region that has seen no chunk.
    pub open spec fn fresh(region: u16) -> WriterModel {
        WriterModel {
            dimension: OVERWORLD_DIMENSION,
            absolute: false,
            origin: (
                (region_cell(region as int).0 * CHUNKS_PER_SIDE) as i32,
                (region_cell(region as int).1 * CHUNKS_PER_SIDE) as i32,
            ),
            side: DEFAULT_CELL_SIDE,
            chunks: Map::empty(),
        }
    }

    /// The writer after it has seen a chunk.
    pub open spec fn noted(self, chunk_x: i32, chunk_z: i32) -> WriterModel {
        WriterModel { absolute: self.absolute || off_region(chunk_x as int, chunk_z as int), ..self }
    }

    /// First super hex of a chunk with a given side.
    pub open spec fn corner(self, chunk_x: i32, chunk_z: i32, side: int) -> (int, int) {
        if self.absolute {
            ((chunk_x - self.origin.0) * side, (chunk_z - self.origin.1) * side)
        } else {
            (chunk_x * side, chunk_z * side)
        }
    }

    /// The writer after a chunk of its dimension is written.
    pub open spec fn wrote(self, chunk_x: i32, chunk_z: i32, cells: int) -> WriterModel {
        WriterModel {
            side: side_of(cells) as i32,
            chunks: self.chunks.insert(
                key_pair(chunk_x as int, chunk_z as int),
                TerrainChunkKey { chunk_x, chunk_z },
            ),
            ..self.noted(chunk_x, chunk_z)
        }
    }

    /// The terrain after a chunk of the writer's dimension is written.
    pub open spec fn terrain_with(self, terrain: Seq<u64>, chunk_x: i32, chunk_z: i32, chunk: ChunkModel) -> Seq<u64> {
        let n = chunk.elevations.len() as int;
        let side = side_of(n);
        chunk.written(terrain, self.noted(chunk_x, chunk_z).corner(chunk_x, chunk_z, side), side, n)
    }
}

/// Writes terrain chunks into the terrain of a region. Upstream numbers the
/// chunks from the region's corner or from the world's; the first chunk off
/// the region tells.
pub struct TerrainWriter {
    pub terrain_dimension: u32,
    pub absolute_chunks: bool,
    pub origin_chunk_x: i32,
    pub origin_chunk_z: i32,
    pub cell_side: i32,
    pub tracked_chunks: IdTable<TerrainChunkKey>,
}

impl View for TerrainWriter {
    type V = WriterModel;

    open spec fn view(&self) -> WriterModel {
        WriterModel {
            dimension: self.terrain_dimension,
            absolute: self.absolute_chunks,
            origin: (self.origin_chunk_x, self.origin_chunk_z),
            side: self.cell_side,
            chunks: self.tracked_chunks@,
        }
    }
}

impl TerrainWriter {
    /// The chunk map is well formed.
    pub open spec fn wf(&self) -> bool {
        self.tracked_chunks.wf()
    }

    /// A writer for a region.
    pub fn new(region: u16) -> (r: Self)
        ensures
            r.wf(),
            r@ == WriterModel::fresh(region),
    {
        let origin = region_origin(region);
        let origin_chunk_x: i64 = div_floor(origin.x as i64, DEFAULT_CHUNK_SIZE as i64);
        let origin_chunk_z: i64 = div_floor(origin.z as i64, DEFAULT_CHUNK_SIZE as i64);
        proof {
            assert(REGION_SIDE == 7680 && DEFAULT_CHUNK_SIZE == 96 && CHUNKS_PER_SIDE == 80);
            let cell = region_cell(region as int);
            assert(origin.x == cell.0 * 7680 && origin.z == cell.1 * 7680);
            let (across, down) = cell;
            assert((across * 7680) / 96 == across * 80) by (nonlinear_arith);
            assert((down * 7680) / 96 == down * 80) by (nonlinear_arith);
            assert(origin_chunk_x == region_cell(region as int).0 * CHUNKS_PER_SIDE);
            assert(origin_chunk_z == region_cell(region as int).1 * CHUNKS_PER_SIDE);
        }
        TerrainWriter {
            terrain_dimension: OVERWORLD_DIMENSION,
            absolute_chunks: false,
            origin_chunk_x: origin_chunk_x as i32,
            origin_chunk_z: origin_chunk_z as i32,
            cell_side: DEFAULT_CELL_SIDE,
            tracked_chunks: IdTable::new(),
        }
    }

    /// Sees a chunk: one off the region means that chunks are numbered from
    /// the world's corner.
    pub fn note_chunk(&mut self, chunk_x: i32, chunk_z: i32)
        ensures
            final(self)@ == old(self)@.noted(chunk_x, chunk_z),
            old(self).wf() ==> final(self).wf(),
    {
        if !self.absolute_chunks && (chunk_x < 0 || chunk_z < 0 || chunk_x >= CHUNKS_PER_SIDE || chunk_z
            >= CHUNKS_PER_SIDE) {
            self.absolute_chunks = true;
        }
    }

    /// First super hex of a chunk with a given side.
    fn corner_of(&self, chunk_x: i32, chunk_z: i32, side: i32) -> (r: (i128, i128))
        requires
            side >= 0,
        ensures
            (r.0 as int, r.1 as int) == self@.corner(chunk_x, chunk_z, side as int),
            -0x1000_0000_0000_0000_0000 < r.0 < 0x1000_0000_0000_0000_0000,
            -0x1000_0000_0000_0000_0000 < r.1 < 0x1000_0000_0000_0000_0000,
    {
        let (bx, bz): (i64, i64) = if self.absolute_chunks {
            (chunk_x as i64 - self.origin_chunk_x as i64, chunk_z as i64 - self.origin_chunk_z as i64)
        } else {
            (chunk_x as i64, chunk_z as i64)
        };
        proof {
            lemma_product_fits(bx as int, side as int);
            lemma_product_fits(bz as int, side as int);
        }
        (bx as i128 * side as i128, bz as i128 * side as i128)
    }

    /// Writes a chunk, where it has the writer's dimension.
    pub fn write_chunk(
        &mut self,
        region: u16,
        terrain: &mut SuperHexTerrainGrid,
        chunk_x: i32,
        chunk_z: i32,
        dimension: u32,
        elevations: &[i16],
        original: &[i16],
        water_levels: &[i16],
        water_body_types: &[u8],
    )
        requires
            old(self).wf(),
            old(terrain).wf(),
        ensures
            final(self).wf(),
            final(terrain).wf(),
            ({
                let chunk = ChunkModel {
                    elevations: elevations@,
                    original: original@,
                    water_levels: water_levels@,
                    water_body_types: water_body_types@,
                };
                if dimension == old(self)@.dimension {
                    &&& final(self)@ == old(self)@.wrote(chunk_x, chunk_z, elevations@.len() as int)
                    &&& final(terrain).words() == old(self)@.terrain_with(
                        old(terrain).words(),
                        chunk_x,
                        chunk_z,
                        chunk,
                    )
                } else {
                    final(self)@ == old(self)@ && final(terrain).words() == old(terrain).words()
                }
            }),
    {
        if dimension != self.terrain_dimension {
            return ;
        }
        self.note_chunk(chunk_x, chunk_z);
        let len: usize = elevations.len();
        let side: i32 = chunk_side(len);
        self.cell_side = side;
        let corner = self.corner_of(chunk_x, chunk_z, side);
        let ghost chunk = ChunkModel {
            elevations: elevations@,
            original: original@,
            water_levels: water_levels@,
            water_body_types: water_body_types@,
        };
        let ghost before = terrain.words();
        let ghost c = (corner.0 as int, corner.1 as int);
        proof {
            terrain.lemma_size();
            assert(chunk.written(before, c, side as int, 0) =~= before);
        }
        let mut i: usize = 0;
        while i < len
            invariant
                i <= len == elevations@.len(),
                0 < side,
                terrain.wf(),
                c == (corner.0 as int, corner.1 as int),
                -0x1000_0000_0000_0000_0000 < corner.0 < 0x1000_0000_0000_0000_0000,
                -0x1000_0000_0000_0000_0000 < corner.1 < 0x1000_0000_0000_0000_0000,
                chunk.elevations == elevations@,
                chunk.original == original@,
                chunk.water_levels == water_levels@,
                chunk.water_body_types == water_body_types@,
                before.len() == TERRAIN_CELLS,
                terrain.words() == chunk.written(before, c, side as int, i as int),
            decreases len - i,
        {
            let lx: usize = i % side as usize;
            let lz: usize = i / side as usize;
            let orig: i16 = if i < original.len() {
                original[i]
            } else {
                elevations[i]
            };
            let water: i16 = if i < water_levels.len() {
                water_levels[i]
            } else {
                i16::MIN
            };
            let wide: bool = water_body_types.len() % 2 == 0 && water_body_types.len() / 2 == len;
            let wbt: u8 = if wide {
                water_body_types[2 * i]
            } else if i < water_body_types.len() {
                water_body_types[i]
            } else {
                0
            };
            let packed: u64 = pack_terrain(elevations[i], orig, water, wbt);
            assert(packed == chunk.word(i as int));
            let ghost at = terrain.words();
            set_at(terrain, corner.0 + lx as i128, corner.1 + lz as i128, packed);
            proof {
                lemma_written_step(chunk, before, c, side as int, i as int);
            }
            i += 1;
        }
        let _ = self.tracked_chunks.insert(key_of_pair(chunk_x, chunk_z), TerrainChunkKey { chunk_x, chunk_z });
    }

    /// Sets the cells of a chunk to zero.
    pub fn clear_chunk(&self, terrain: &mut SuperHexTerrainGrid, chunk_x: i32, chunk_z: i32)
        requires
            old(terrain).wf(),
        ensures
            final(terrain).wf(),
            final(terrain).words() == cleared(
                old(terrain).words(),
                self@.corner(chunk_x, chunk_z, self@.side as int),
                self@.side as int,
            ),
    {
        let side: i32 = self.cell_side;
        let ghost before = terrain.words();
        proof {
            terrain.lemma_size();
        }
        if side <= 0 {
            assert(cleared(before, self@.corner(chunk_x, chunk_z, side as int), side as int) =~= before);
            return ;
        }
        let corner = self.corner_of(chunk_x, chunk_z, side);
        let ghost c = (corner.0 as int, corner.1 as int);
        let mut lz: i32 = 0;
        assert(cleared_upto(before, c, side as int, 0) =~= before);
        while lz < side
            invariant
                0 <= lz <= side,
                terrain.wf(),
                c == (corner.0 as int, corner.1 as int),
                -0x1000_0000_0000_0000_0000 < corner.0 < 0x1000_0000_0000_0000_0000,
                -0x1000_0000_0000_0000_0000 < corner.1 < 0x1000_0000_0000_0000_0000,
                before.len() == TERRAIN_CELLS,
                terrain.words() == cleared_upto(before, c, side as int, lz * side),
            decreases side - lz,
        {
            let mut lx: i32 = 0;
            assert(lz * side + side == (lz + 1) * side) by (nonlinear_arith);
            while lx < side
                invariant
                    0 <= lx <= side,
                    0 <= lz < side,
                    terrain.wf(),
                    c == (corner.0 as int, corner.1 as int),
                    -0x1000_0000_0000_0000_0000 < corner.0 < 0x1000_0000_0000_0000_0000,
                    -0x1000_0000_0000_0000_0000 < corner.1 < 0x1000_0000_0000_0000_0000,
                    before.len() == TERRAIN_CELLS,
                    terrain.words() == cleared_upto(before, c, side as int, lz * side + lx),
                decreases side - lx,
            {
                set_at(terrain, corner.0 + lx as i128, corner.1 + lz as i128, 0);
                proof {
                    lemma_cleared_step(before, c, side as int, lx as int, lz as int);
                }
                lx += 1;
            }
            lz += 1;
        }
        proof {
            lemma_cleared_whole(before, c, side as int);
        }
    }

    /// Chooses the dimension whose chunks are written.
    pub fn set_best_dimension(&mut self, dim: u32)
        ensures
            final(self)@ == (WriterModel { dimension: dim, ..old(self)@ }),
            old(self).wf() ==> final(self).wf(),
    {
        self.terrain_dimension = dim;
    }
}

/// Products of chunk coordinates and sides are small enough to count with.
proof fn lemma_product_fits(b: int, side: int)
    requires
        -0x1_0000_0000 <= b <= 0x1_0000_0000,
        0 <= side <= 0x7fff_ffff,
    ensures
        -0x1000_0000_0000_0000_0000 < b * side < 0x1000_0000_0000_0000_0000,
{
    assert(-0x8000_0000_0000_0000 <= b * side <= 0x8000_0000_0000_0000) by (nonlinear_arith)
        requires
            -0x1_0000_0000 <= b <= 0x1_0000_0000,
            0 <= side <= 0x7fff_ffff,
    ;
}

/// The square of a number.
fn square(s: u64) -> (r: u64)
    requires
        s <= 0x8000_0000,
    ensures
        r == s * s,
{
    assert(s * s <= 0x8000_0000 * 0x8000_0000) by (nonlinear_arith)
        requires
            0 <= s <= 0x8000_0000,
    ;
    s * s
}

/// Side of a chunk with `n` cells.
fn chunk_side(n: usize) -> (r: i32)
    ensures
        r == side_of(n as int),
        r > 0,
{
    let mut s: u64 = 1;
    while s <= 0x7fff_ffff && square(s) < n as u64
        invariant
            1 <= s <= 0x8000_0000,
            forall|t: int| 1 <= t < s ==> #[trigger] (t * t) < n,
        decreases 0x8000_0000 - s,
    {
        s += 1;
    }
    if s <= 0x7fff_ffff && square(s) == n as u64 {
        proof {
            assert(is_side(n as int, s as int));
            let c = choose|c: int| is_side(n as int, c);
            assert(c == s) by (nonlinear_arith)
                requires
                    0 < c,
                    0 < s,
                    c * c == s * s,
            ;
        }
        return s as i32;
    }
    assert forall|t: int| !is_side(n as int, t) by {
        if is_side(n as int, t) {
            if t < s {
                assert(t * t < n);
            } else {
                assert(t * t >= s * s) by (nonlinear_arith)
                    requires
                        t >= s,
                        s >= 1,
                ;
            }
        }
    }
    DEFAULT_CELL_SIDE
}

/// Sets the cell of a super hex, which may lie off the region.
fn set_at(terrain: &mut SuperHexTerrainGrid, sx: i128, sz: i128, value: u64)
    requires
        old(terrain).wf(),
    ensures
        final(terrain).wf(),
        final(terrain).words() == if in_super_grid(sx as int, sz as int) {
            old(terrain).words().update(sz * SUPER_SIDE + sx, value)
        } else {
            old(terrain).words()
        },
{
    if 0 <= sx && sx < SUPER_SIDE as i128 && 0 <= sz && sz < SUPER_SIDE as i128 {
        terrain.set(sx as i32, sz as i32, value);
    }
}

/// The terrain after the cells of a square are set to zero up to the `n`th, in
/// rows of `side`.
spec fn cleared_upto(terrain: Seq<u64>, corner: (int, int), side: int, n: int) -> Seq<u64> {
    Seq::new(
        terrain.len(),
        |k: int|
            {
                let dx = k % (SUPER_SIDE as int) - corner.0;
                let dz = k / (SUPER_SIDE as int) - corner.1;
                if 0 <= dx < side && 0 <= dz && dz * side + dx < n {
                    0
                } else {
                    terrain[k]
                }
            },
    )
}

/// Positions in rows of a side are distinct.
proof fn lemma_positions(side: int, ax: int, az: int, bx: int, bz: int)
    requires
        0 < side,
        0 <= ax < side,
        0 <= bx < side,
        az * side + ax == bz * side + bx,
    ensures
        ax == bx,
        az == bz,
{
    assert(az == bz) by (nonlinear_arith)
        requires
            0 < side,
            0 <= ax < side,
            0 <= bx < side,
            az * side + ax == bz * side + bx,
    ;
}

/// A position in rows of a side.
proof fn lemma_position(side: int, i: int)
    requires
        0 < side,
        0 <= i,
    ensures
        0 <= i % side < side,
        0 <= i / side,
        (i / side) * side + i % side == i,
{
    vstd::arithmetic::div_mod::lemma_fundamental_div_mod(i, side);
    assert(0 <= i / side) by (nonlinear_arith)
        requires
            0 < side,
            0 <= i,
    ;
    assert(side * (i / side) == (i / side) * side) by (nonlinear_arith);
    vstd::arithmetic::div_mod::lemma_mod_bound(i, side);
}

/// Position of a super hex in the terrain.
proof fn lemma_grid_position(k: int, sx: int, sz: int)
    requires
        in_super_grid(sx, sz),
        0 <= k < TERRAIN_CELLS,
    ensures
        k == sz * SUPER_SIDE + sx <==> k % (SUPER_SIDE as int) == sx && k / (SUPER_SIDE as int) == sz,
        in_super_grid(k % (SUPER_SIDE as int), k / (SUPER_SIDE as int)),
        0 <= sz * SUPER_SIDE + sx < TERRAIN_CELLS,
{
}

/// One more cell of a chunk.
proof fn lemma_written_step(chunk: ChunkModel, before: Seq<u64>, corner: (int, int), side: int, i: int)
    requires
        0 < side,
        0 <= i,
        before.len() == TERRAIN_CELLS,
    ensures
        ({
            let sx = corner.0 + i % side;
            let sz = corner.1 + i / side;
            let at = chunk.written(before, corner, side, i);
            chunk.written(before, corner, side, i + 1) == if in_super_grid(sx, sz) {
                at.update(sz * SUPER_SIDE + sx, chunk.word(i))
            } else {
                at
            }
        }),
{
    lemma_position(side, i);
    let sx = corner.0 + i % side;
    let sz = corner.1 + i / side;
    let at = chunk.written(before, corner, side, i);
    let after = chunk.written(before, corner, side, i + 1);
    let want = if in_super_grid(sx, sz) {
        at.update(sz * SUPER_SIDE + sx, chunk.word(i))
    } else {
        at
    };
    assert forall|k: int| 0 <= k < before.len() implies after[k] == want[k] by {
        let kx = k % (SUPER_SIDE as int);
        let kz = k / (SUPER_SIDE as int);
        let dx = kx - corner.0;
        let dz = kz - corner.1;
        assert(in_super_grid(kx, kz));
        if in_super_grid(sx, sz) {
            lemma_grid_position(k, sx, sz);
        }
        if 0 <= dx < side && 0 <= dz && dz * side + dx == i {
            lemma_positions(side, dx, dz, i % side, i / side);
            assert(kx == sx && kz == sz);
        } else if kx == sx && kz == sz {
            assert(dx == i % side && dz == i / side);
        }
    }
    assert(after =~= want);
}

/// One more cell of a square.
proof fn lemma_cleared_step(before: Seq<u64>, corner: (int, int), side: int, lx: int, lz: int)
    requires
        0 <= lx < side,
        0 <= lz,
        before.len() == TERRAIN_CELLS,
    ensures
        ({
            let sx = corner.0 + lx;
            let sz = corner.1 + lz;
            let at = cleared_upto(before, corner, side, lz * side + lx);
            cleared_upto(before, corner, side, lz * side + lx + 1) == if in_super_grid(sx, sz) {
                at.update(sz * SUPER_SIDE + sx, 0)
            } else {
                at
            }
        }),
{
    let sx = corner.0 + lx;
    let sz = corner.1 + lz;
    let at = cleared_upto(before, corner, side, lz * side + lx);
    let after = cleared_upto(before, corner, side, lz * side + lx + 1);
    let want = if in_super_grid(sx, sz) {
        at.update(sz * SUPER_SIDE + sx, 0)
    } else {
        at
    };
    assert forall|k: int| 0 <= k < before.len() implies after[k] == want[k] by {
        let kx = k % (SUPER_SIDE as int);
        let kz = k / (SUPER_SIDE as int);
        let dx = kx - corner.0;
        let dz = kz - corner.1;
        assert(in_super_grid(kx, kz));
        if in_super_grid(sx, sz) {
            lemma_grid_position(k, sx, sz);
        }
        if 0 <= dx < side && 0 <= dz && dz * side + dx == lz * side + lx {
            lemma_positions(side, dx, dz, lx, lz);
            assert(kx == sx && kz == sz);
        } else if kx == sx && kz == sz {
            assert(dx == lx && dz == lz);
        }
    }
    assert(after =~= want);
}

/// All rows of a square.
proof fn lemma_cleared_whole(before: Seq<u64>, corner: (int, int), side: int)
    requires
        0 < side,
    ensures
        cleared_upto(before, corner, side, side * side) == cleared(before, corner, side),
{
    let a = cleared_upto(before, corner, side, side * side);
    let b = cleared(before, corner, side);
    assert forall|k: int| 0 <= k < before.len() implies a[k] == b[k] by {
        let dx = k % (SUPER_SIDE as int) - corner.0;
        let dz = k / (SUPER_SIDE as int) - corner.1;
        if 0 <= dx < side && 0 <= dz {
            assert(dz * side + dx < side * side <==> dz < side) by (nonlinear_arith)
                requires
                    0 <= dx < side,
                    0 <= dz,
            ;
        }
    }
    assert(a =~= b);
}

/// Clearing a chunk takes out exactly the cells that writing it put in: where
/// the terrain was zero before, writing a square chunk and clearing it leaves
/// the terrain as it was.
pub proof fn law_clearing_undoes_writing(chunk: ChunkModel, terrain: Seq<u64>, corner: (int, int), side: int)
    requires
        0 < side,
        chunk.elevations.len() == side * side,
        forall|k: int| 0 <= k < terrain.len() ==> #[trigger] terrain[k] == 0,
    ensures
        cleared(chunk.written(terrain, corner, side, chunk.elevations.len() as int), corner, side) == terrain,
{
    let after = cleared(chunk.written(terrain, corner, side, chunk.elevations.len() as int), corner, side);
    assert forall|k: int| 0 <= k < terrain.len() implies after[k] == terrain[k] by {
        let dx = k % (SUPER_SIDE as int) - corner.0;
        let dz = k / (SUPER_SIDE as int) - corner.1;
        if 0 <= dx < side && 0 <= dz {
            assert(dz * side + dx < side * side <==> dz < side) by (nonlinear_arith)
                requires
                    0 <= dx < side,
                    0 <= dz,
            ;
        }
    }
    assert(after =~= terrain);
}

} // verus!
