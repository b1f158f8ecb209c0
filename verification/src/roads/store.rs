//! The maps of a region, and what is told of them.

use std::sync::Arc;

use vstd::prelude::*;

use crate::digest::{sha256, sha256_of};
use crate::hex_text::{bytes_of_hex, encode, hex_of, is_hex, law_hex_round_trip};
use crate::id_table::{key_of_pair, key_pair, lemma_keys_injective, pair_of_key, IdTable};
use crate::le_bytes::{
    from_le, law_le_round_trip, lemma_u32s_le_at, lemma_u64s_le_at, pow256, push_le, u32s_le, u64s_le,
};
use crate::roads::coords::{
    in_region, in_super_grid, map_region, region_corner, region_origin, world_to_local, REGION_SIDE, SMALL_PER_SUPER,
    SUPER_SIDE,
};
use crate::roads::decode::TerrainChunkRow;
use crate::roads::grid::{
    claim_of, claimed_count, get_claim_index, get_paving, paved_count, paving_of, SuperHexTerrainGrid, TileOverlayGrid,
    OVERLAY_BYTES, OVERLAY_CELLS, TERRAIN_BYTES, TERRAIN_CELLS,
};
use crate::roads::harvestable::{HarvestModel, HarvestableCatalog, HarvestableIndex};
use crate::roads::index::ClaimIndexTable;
use crate::roads::join::{EntityJoinMaps, TerrainWriter, WriterModel, OVERWORLD_DIMENSION};
use crate::roads::resource_map::{MapModel, ResourceTileMap, RESOURCE_MAP_BYTES};
use crate::sorted::{sort_dedup_keys, strictly_ascending};

verus! {

/// State of a region that is still being filled.
pub const REGION_STATE_LOADING: u32 = 2;

/// State of a region that can be read.
pub const REGION_STATE_READY: u32 = 3;

/// Largest number of tiles in one question about the map.
pub const MAX_MAP_QUERY_TILES: usize = 16384;

/// Memory that a region takes beside its grids.
pub const OVERHEAD_BYTES: u64 = 1_000_000;

/// The maps of a region.
pub struct RoadsRegionGrid {
    pub region: u16,
    pub ready: bool,
    pub generation: u64,
    pub loaded_at_unix_ms: i64,
    pub last_update_unix_ms: i64,
    pub error: String,
    pub terrain: SuperHexTerrainGrid,
    pub overlay: TileOverlayGrid,
    pub claim_index: ClaimIndexTable,
    pub join: EntityJoinMaps,
    pub terrain_writer: TerrainWriter,
    /// Number of terrain chunks in each dimension.
    pub dim_hist: IdTable<u64>,
    /// Dimension of each terrain chunk, by its packed coordinates.
    pub terrain_chunks: IdTable<u32>,
    /// Terrain that waits for the choice of a dimension.
    pub pending_terrain: Vec<TerrainChunkRow>,
    pub resource_map: ResourceTileMap,
    pub harvestable: HarvestableIndex,
}

/// The maps of a region under its number. The maps themselves keep the low 16
/// bits of it.
#[derive(Clone, Copy)]
pub struct RoadsRegionHandle<'a> {
    pub region: u32,
    pub grid: &'a RoadsRegionGrid,
}

impl RoadsRegionHandle<'_> {
    /// Whether the maps are well formed and those of the region.
    pub open spec fn wf(self) -> bool {
        self.grid.wf() && self.grid.region == map_region(self.region)
    }
}

/// What the maps of a region hold.
#[verifier::ext_equal]
pub struct GridModel {
    pub region: u16,
    pub ready: bool,
    pub generation: u64,
    pub loaded_at: i64,
    pub updated_at: i64,
    pub error: Seq<char>,
    pub terrain: Seq<u64>,
    pub overlay: Seq<u32>,
    pub claims: Seq<u64>,
    pub paving: Map<u64, i32>,
    pub claim: Map<u64, u64>,
    pub place: Map<u64, (i32, i32)>,
    pub neutral: Map<u64, ()>,
    pub writer: WriterModel,
    pub dims: Map<u64, u64>,
    pub chunks: Map<u64, u32>,
    pub pending: Seq<TerrainChunkRow>,
    pub resources: MapModel,
    pub harvest: HarvestModel,
    pub book: HarvestableCatalog,
}

impl View for RoadsRegionGrid {
    type V = GridModel;

    open spec fn view(&self) -> GridModel {
        GridModel {
            region: self.region,
            ready: self.ready,
            generation: self.generation,
            loaded_at: self.loaded_at_unix_ms,
            updated_at: self.last_update_unix_ms,
            error: self.error@,
            terrain: self.terrain.words(),
            overlay: self.overlay.words(),
            claims: self.claim_index@,
            paving: self.join.paving_by_entity@,
            claim: self.join.claim_by_entity@,
            place: self.join.location_by_entity@,
            neutral: self.join.neutral_claims@,
            writer: self.terrain_writer@,
            dims: self.dim_hist@,
            chunks: self.terrain_chunks@,
            pending: self.pending_terrain@,
            resources: self.resource_map@,
            harvest: self.harvestable@,
            book: self.harvestable.book(),
        }
    }
}

impl GridModel {
    /// The maps of a region that nothing is known of.
    pub open spec fn fresh(region: u16, book: HarvestableCatalog, now: i64) -> GridModel {
        GridModel {
            region,
            ready: false,
            generation: 0,
            loaded_at: now,
            updated_at: now,
            error: Seq::empty(),
            terrain: Seq::new(TERRAIN_CELLS as nat, |i: int| 0u64),
            overlay: Seq::new(OVERLAY_CELLS as nat, |i: int| 0u32),
            claims: seq![0u64],
            paving: Map::empty(),
            claim: Map::empty(),
            place: Map::empty(),
            neutral: Map::empty(),
            writer: WriterModel::fresh(region),
            dims: Map::empty(),
            chunks: Map::empty(),
            pending: Seq::empty(),
            resources: MapModel {
                region,
                tiles: Seq::new(OVERLAY_CELLS as nat, |i: int| 0u16),
                nodes: Map::empty(),
                stampers: Map::empty(),
                ids: seq![0i32],
                footprints: Map::empty(),
                paving_ids: seq![0i32],
                watch: false,
                pending: Seq::empty(),
            },
            harvest: HarvestModel { nodes: Map::empty(), on: Map::empty() },
            book,
        }
    }

    /// The maps after a change at a given time.
    pub open spec fn bumped(self, now: i64) -> GridModel {
        GridModel {
            generation: if self.generation == u64::MAX {
                u64::MAX
            } else {
                (self.generation + 1) as u64
            },
            updated_at: now,
            ..self
        }
    }
}

/// Whether a dimension is the one to show: the overworld where it has terrain,
/// else one with the most chunks, else the overworld.
pub open spec fn is_best_dimension(dims: Map<u64, u64>, d: u32) -> bool {
    if dims.dom().contains(OVERWORLD_DIMENSION as u64) || dims.dom() =~= Set::<u64>::empty() {
        d == OVERWORLD_DIMENSION
    } else {
        &&& dims.dom().contains(d as u64)
        &&& forall|e: u64| #[trigger] dims.dom().contains(e) ==> dims[e] <= dims[d as u64]
    }
}

/// What a window tells of a tile.
#[derive(Debug, Clone, Copy, PartialEq, Eq, Structural)]
pub struct MapTileData {
    pub x: i32,
    pub z: i32,
    pub paving_type_id: u16,
    pub claim_entity_id: u64,
}

/// What a window tells of a block of tiles: the world coordinates of its first
/// tile, and its terrain.
#[derive(Debug, Clone, Copy, PartialEq, Eq, Structural)]
pub struct MapSuperHexData {
    pub x: i32,
    pub z: i32,
    pub terrain: u64,
}

/// A few tiles of the map.
#[derive(Debug)]
pub struct RegionMapWindowData {
    pub region: u32,
    pub generation: u64,
    pub last_update_unix_ms: i64,
    pub origin_x: i32,
    pub origin_z: i32,
    pub terrain: Vec<MapSuperHexData>,
    pub tiles: Vec<MapTileData>,
}

/// The whole map of a region.
#[derive(Debug)]
pub struct RegionMapSnapshot {
    pub region: u32,
    pub generation: u64,
    pub last_update_unix_ms: i64,
    pub origin_x: i32,
    pub origin_z: i32,
    pub claim_table: Vec<u64>,
    pub neutral_claim_ids: Vec<u64>,
    pub terrain: Vec<u8>,
    pub overlay: Vec<u8>,
    pub etag: String,
}

/// The state of a region's maps.
#[derive(Debug)]
pub struct RegionRoadStatus {
    pub region: u32,
    pub state: u32,
    pub connected: bool,
    pub loaded_at_unix_ms: i64,
    pub last_update_unix_ms: i64,
    pub error: String,
    pub memory_bytes: u64,
    pub claim_count: u32,
    pub paved_tile_count: u32,
    pub claim_tile_count: u32,
}

/// What the map says of a world tile in the region.
pub open spec fn tile_data(m: GridModel, x: i32, z: i32) -> MapTileData {
    let lx = x - region_corner(m.region as int).0;
    let lz = z - region_corner(m.region as int).1;
    let cell = m.overlay[lz * REGION_SIDE + lx];
    MapTileData {
        x,
        z,
        paving_type_id: paving_of(cell),
        claim_entity_id: if claim_of(cell) < m.claims.len() {
            m.claims[claim_of(cell) as int]
        } else {
            0
        },
    }
}

/// Whether a world tile lies in the region.
pub open spec fn holds_tile(region: u16, x: int, z: int) -> bool {
    in_region(x - region_corner(region as int).0, z - region_corner(region as int).1)
}

/// The block of a world tile in the region.
pub open spec fn block_of(region: u16, x: int, z: int) -> (int, int) {
    (
        (x - region_corner(region as int).0) / (SMALL_PER_SUPER as int),
        (z - region_corner(region as int).1) / (SMALL_PER_SUPER as int),
    )
}

/// What the map says of a block.
pub open spec fn block_data(m: GridModel, bx: int, bz: int) -> MapSuperHexData {
    MapSuperHexData {
        x: (region_corner(m.region as int).0 + bx * SMALL_PER_SUPER) as i32,
        z: (region_corner(m.region as int).1 + bz * SMALL_PER_SUPER) as i32,
        terrain: m.terrain[bz * SUPER_SIDE + bx],
    }
}

/// Keys of the tiles that a window tells of, in order.
pub open spec fn tile_keys(tiles: Seq<MapTileData>) -> Seq<u64> {
    tiles.map_values(|t: MapTileData| key_pair(t.x as int, t.z as int))
}

/// Keys of the blocks that a window tells of, in order.
pub open spec fn block_keys(blocks: Seq<MapSuperHexData>) -> Seq<u64> {
    blocks.map_values(|b: MapSuperHexData| key_pair(b.x as int, b.z as int))
}

/// What a window tells for a list of tiles: each tile of the region once, in
/// the order of its coordinates, and each block with one of them once, in the
/// same order.
pub open spec fn is_window(m: GridModel, asked: Seq<(i32, i32)>, w: RegionMapWindowData) -> bool {
    &&& w.region == m.region
    &&& w.generation == m.generation
    &&& w.last_update_unix_ms == m.updated_at
    &&& (w.origin_x as int, w.origin_z as int) == region_corner(m.region as int)
    &&& strictly_ascending(tile_keys(w.tiles@))
    &&& strictly_ascending(block_keys(w.terrain@))
    &&& forall|i: int|
        0 <= i < w.tiles@.len() ==> {
            let t = #[trigger] w.tiles@[i];
            &&& asked.contains((t.x, t.z))
            &&& holds_tile(m.region, t.x as int, t.z as int)
            &&& t == tile_data(m, t.x, t.z)
        }
    &&& forall|k: int|
        0 <= k < asked.len() && holds_tile(m.region, (#[trigger] asked[k]).0 as int, asked[k].1 as int)
            ==> w.tiles@.contains(tile_data(m, asked[k].0, asked[k].1))
    &&& forall|i: int| 0 <= i < w.terrain@.len() ==> block_of_some(m, w.tiles@, #[trigger] w.terrain@[i])
    &&& forall|j: int| 0 <= j < w.tiles@.len() ==> w.terrain@.contains(block_of_tile(m, #[trigger] w.tiles@[j]))
}

/// What the map says of the block of a tile.
pub open spec fn block_of_tile(m: GridModel, t: MapTileData) -> MapSuperHexData {
    let b = block_of(m.region, t.x as int, t.z as int);
    block_data(m, b.0, b.1)
}

/// Whether a block is that of one of some tiles.
pub open spec fn block_of_some(m: GridModel, tiles: Seq<MapTileData>, b: MapSuperHexData) -> bool {
    exists|j: int| 0 <= j < tiles.len() && b == block_of_tile(m, #[trigger] tiles[j])
}

/// Whether a key is that of a block of a region.
pub open spec fn is_block_key(k: u64) -> bool {
    exists|bx: int, bz: int| in_super_grid(bx, bz) && k == #[trigger] key_pair(bx, bz)
}

impl GridModel {
    /// The tag of this state of the map: the digest of terrain, overlay and
    /// claims.
    pub open spec fn tag(self) -> Seq<char> {
        hex_of(sha256_of(u64s_le(self.terrain) + u32s_le(self.overlay) + u64s_le(self.claims)))
    }

    /// Whether a snapshot tells this map.
    pub open spec fn is_told_by(self, s: RegionMapSnapshot) -> bool {
        &&& s.region == self.region
        &&& s.generation == self.generation
        &&& s.last_update_unix_ms == self.updated_at
        &&& (s.origin_x as int, s.origin_z as int) == region_corner(self.region as int)
        &&& s.claim_table@ == self.claims
        &&& strictly_ascending(s.neutral_claim_ids@)
        &&& s.neutral_claim_ids@.to_set() == self.neutral.dom()
        &&& s.terrain@ == u64s_le(self.terrain)
        &&& s.overlay@ == u32s_le(self.overlay)
        &&& s.etag@ == self.tag()
    }
}

/// A window tells what a snapshot of the same map tells: the cell of a tile
/// stands at its place among the bytes of the overlay.
pub proof fn law_window_tiles_match_snapshot(
    m: GridModel,
    asked: Seq<(i32, i32)>,
    w: RegionMapWindowData,
    s: RegionMapSnapshot,
    i: int,
)
    requires
        m.overlay.len() == OVERLAY_CELLS,
        is_window(m, asked, w),
        m.is_told_by(s),
        0 <= i < w.tiles@.len(),
    ensures
        ({
            let t = w.tiles@[i];
            let at = 4 * ((t.z - s.origin_z) * REGION_SIDE + (t.x - s.origin_x));
            let cell = from_le(s.overlay@.subrange(at, at + 4)) as u32;
            &&& t.paving_type_id == paving_of(cell)
            &&& t.claim_entity_id == if claim_of(cell) < s.claim_table@.len() {
                s.claim_table@[claim_of(cell) as int]
            } else {
                0
            }
        }),
{
    let t = w.tiles@[i];
    let k = (t.z - s.origin_z) * REGION_SIDE + (t.x - s.origin_x);
    assert(REGION_SIDE == 7680);
    assert(0 <= k < OVERLAY_CELLS);
    lemma_u32s_le_at(m.overlay, k);
    assert(pow256(4) == 0x1_0000_0000) by {
        reveal_with_fuel(pow256, 5);
    }
    law_le_round_trip(m.overlay[k] as nat, 4);
}

/// A window tells what a snapshot of the same map tells: the terrain of a
/// block stands at its place among the bytes of the terrain.
pub proof fn law_window_terrain_matches_snapshot(
    m: GridModel,
    asked: Seq<(i32, i32)>,
    w: RegionMapWindowData,
    s: RegionMapSnapshot,
    i: int,
)
    requires
        m.terrain.len() == TERRAIN_CELLS,
        is_window(m, asked, w),
        m.is_told_by(s),
        0 <= i < w.terrain@.len(),
    ensures
        ({
            let b = w.terrain@[i];
            let bx = (b.x - s.origin_x) / (SMALL_PER_SUPER as int);
            let bz = (b.z - s.origin_z) / (SMALL_PER_SUPER as int);
            let at = 8 * (bz * SUPER_SIDE + bx);
            b.terrain == from_le(s.terrain@.subrange(at, at + 8))
        }),
{
    let b = w.terrain@[i];
    assert(block_of_some(m, w.tiles@, b));
    let j = choose|j: int| 0 <= j < w.tiles@.len() && b == block_of_tile(m, #[trigger] w.tiles@[j]);
    let t = w.tiles@[j];
    let (bx, bz) = block_of(m.region, t.x as int, t.z as int);
    let corner = region_corner(m.region as int);
    assert(REGION_SIDE == 7680 && SUPER_SIDE == 2560 && SMALL_PER_SUPER == 3);
    assert(0 <= bx < 2560 && 0 <= bz < 2560);
    assert(0 <= corner.0 <= 30720 && -7680 <= corner.1 <= 100_661_760);
    assert(b.x == corner.0 + bx * 3 && b.z == corner.1 + bz * 3);
    assert((b.x - s.origin_x) / 3 == bx && (b.z - s.origin_z) / 3 == bz);
    let k = bz * SUPER_SIDE + bx;
    assert(0 <= k < TERRAIN_CELLS);
    lemma_u64s_le_at(m.terrain, k);
    assert(pow256(8) == 0x1_0000_0000_0000_0000) by {
        reveal_with_fuel(pow256, 9);
    }
    law_le_round_trip(m.terrain[k] as nat, 8);
}

impl RoadsRegionGrid {
    /// Every part is well formed, and dimensions are keyed by their number.
    pub open spec fn wf(&self) -> bool {
        &&& self.terrain.wf()
        &&& self.overlay.wf()
        &&& self.claim_index.wf()
        &&& self.join.wf()
        &&& self.terrain_writer.wf()
        &&& self.dim_hist.wf()
        &&& self.terrain_chunks.wf()
        &&& self.resource_map.wf()
        &&& self.harvestable.wf()
        &&& forall|d: u64| #[trigger] self.dim_hist@.dom().contains(d) ==> d <= u32::MAX
    }

    /// The maps of a region that nothing is known of.
    pub fn new(region: u16, catalog: Arc<HarvestableCatalog>, now_ms: i64) -> (r: Self)
        requires
            catalog.wf(),
        ensures
            r.wf(),
            r@ == GridModel::fresh(region, *catalog, now_ms),
    {
        let r = RoadsRegionGrid {
            region,
            ready: false,
            generation: 0,
            loaded_at_unix_ms: now_ms,
            last_update_unix_ms: now_ms,
            error: String::new(),
            terrain: SuperHexTerrainGrid::new(),
            overlay: TileOverlayGrid::new(),
            claim_index: ClaimIndexTable::new(),
            join: EntityJoinMaps::new(),
            terrain_writer: TerrainWriter::new(region),
            dim_hist: IdTable::new(),
            terrain_chunks: IdTable::new(),
            pending_terrain: Vec::new(),
            resource_map: ResourceTileMap::new(region),
            harvestable: HarvestableIndex::new(catalog),
        };
        assert(r@ =~= GridModel::fresh(region, *catalog, now_ms));
        r
    }

    /// Memory that the maps take.
    pub fn memory_bytes(&self) -> (r: u64)
        ensures
            r == TERRAIN_BYTES + OVERLAY_BYTES + RESOURCE_MAP_BYTES + OVERHEAD_BYTES,
    {
        TERRAIN_BYTES as u64 + OVERLAY_BYTES as u64 + RESOURCE_MAP_BYTES as u64 + OVERHEAD_BYTES
    }

    /// Counts a change.
    pub fn bump_generation(&mut self, now_ms: i64)
        ensures
            final(self)@ == old(self)@.bumped(now_ms),
            old(self).wf() ==> final(self).wf(),
            final(self).terrain == old(self).terrain,
    {
        if self.generation < u64::MAX {
            self.generation = self.generation + 1;
        }
        self.last_update_unix_ms = now_ms;
    }

    /// The maps can be read from now on.
    pub fn mark_ready(&mut self, now_ms: i64)
        ensures
            final(self)@ == (GridModel { ready: true, loaded_at: now_ms, updated_at: now_ms, ..old(self)@ }),
            old(self).wf() ==> final(self).wf(),
    {
        self.ready = true;
        self.loaded_at_unix_ms = now_ms;
        self.last_update_unix_ms = now_ms;
    }

    /// The dimension to show. Which of several with the most chunks is left
    /// open.
    pub fn best_terrain_dimension(&self) -> (r: u32)
        requires
            self.wf(),
        ensures
            is_best_dimension(self@.dims, r),
    {
        if self.dim_hist.contains(OVERWORLD_DIMENSION as u64) {
            return OVERWORLD_DIMENSION;
        }
        let n: usize = self.dim_hist.len();
        let ghost ids = self.dim_hist.ids();
        let ghost dims = self.dim_hist@;
        proof {
            self.dim_hist.lemma_ids();
        }
        if n == 0 {
            assert(dims.dom() =~= Set::<u64>::empty()) by {
                assert(ids.to_set() =~= Set::<u64>::empty());
            }
            return OVERWORLD_DIMENSION;
        }
        let mut best: u64 = self.dim_hist.id_at(0);
        let mut most: u64 = *self.dim_hist.value_at(0);
        let mut i: usize = 1;
        while i < n
            invariant
                self.dim_hist.wf(),
                ids == self.dim_hist.ids(),
                dims == self.dim_hist@,
                1 <= i <= n == ids.len(),
                dims.dom().contains(best),
                most == dims[best],
                forall|j: int| 0 <= j < i ==> dims[#[trigger] ids[j]] <= most,
            decreases n - i,
        {
            let count: u64 = *self.dim_hist.value_at(i);
            if count >= most {
                best = self.dim_hist.id_at(i);
                most = count;
            }
            i += 1;
        }
        proof {
            assert forall|e: u64| #[trigger] dims.dom().contains(e) implies dims[e] <= dims[best] by {
                assert(ids.to_set().contains(e));
                let j = choose|j: int| 0 <= j < ids.len() && ids[j] == e;
                assert(dims[ids[j]] <= most);
            }
            assert(dims.dom().contains(best));
            assert(self.dim_hist@.dom().contains(best));
        }
        best as u32
    }

    /// The whole map. The tag tells two maps apart by the digest of terrain,
    /// overlay and claims.
    pub fn snapshot(&self) -> (r: RegionMapSnapshot)
        requires
            self.wf(),
        ensures
            self@.is_told_by(r),
    {
        let origin = region_origin(self.region);
        let terrain = self.terrain.as_bytes();
        let overlay = self.overlay.as_bytes();
        let claim_table = copied(self.claim_index.claim_table());
        let mut ids: Vec<u64> = Vec::new();
        let n: usize = self.join.neutral_claims.len();
        let mut i: usize = 0;
        while i < n
            invariant
                self.join.neutral_claims.wf(),
                i <= n == self.join.neutral_claims.ids().len(),
                ids@ == self.join.neutral_claims.ids().take(i as int),
            decreases n - i,
        {
            ids.push(self.join.neutral_claims.id_at(i));
            assert(ids@ =~= self.join.neutral_claims.ids().take(i + 1));
            i += 1;
        }
        proof {
            self.join.neutral_claims.lemma_ids();
            assert(ids@ =~= self.join.neutral_claims.ids());
        }
        let neutral_claim_ids = sort_dedup_keys(ids);
        let etag = compute_etag(terrain.as_slice(), overlay.as_slice(), claim_table.as_slice());
        RegionMapSnapshot {
            region: self.region as u32,
            generation: self.generation,
            last_update_unix_ms: self.last_update_unix_ms,
            origin_x: origin.x,
            origin_z: origin.z,
            claim_table,
            neutral_claim_ids,
            terrain,
            overlay,
            etag,
        }
    }

    /// The tiles of a window, in the order of their coordinates, and the keys
    /// of their blocks.
    fn window_tiles(&self, keys: &[u64]) -> (r: (Vec<MapTileData>, Vec<u64>))
        requires
            self.wf(),
            strictly_ascending(keys@),
        ensures
            strictly_ascending(tile_keys(r.0@)),
            r.1@.len() == r.0@.len(),
            forall|i: int|
                0 <= i < r.0@.len() ==> {
                    let t = #[trigger] r.0@[i];
                    &&& keys@.contains(key_pair(t.x as int, t.z as int))
                    &&& holds_tile(self@.region, t.x as int, t.z as int)
                    &&& t == tile_data(self@, t.x, t.z)
                    &&& r.1@[i] == key_pair(
                        block_of(self@.region, t.x as int, t.z as int).0,
                        block_of(self@.region, t.x as int, t.z as int).1,
                    )
                },
            forall|x: i32, z: i32, j: int|
                #![trigger keys@[j], key_pair(x as int, z as int)]
                0 <= j < keys@.len() && keys@[j] == key_pair(x as int, z as int) && holds_tile(
                    self@.region,
                    x as int,
                    z as int,
                ) ==> r.0@.contains(tile_data(self@, x, z)),
    {
        let claim_table = self.claim_index.claim_table();
        let ghost m = self@;
        let mut tiles: Vec<MapTileData> = Vec::new();
        let mut blocks: Vec<u64> = Vec::new();
        let mut i: usize = 0;
        while i < keys.len()
            invariant
                self.wf(),
                m == self@,
                claim_table@ == m.claims,
                strictly_ascending(keys@),
                i <= keys@.len(),
                blocks@.len() == tiles@.len(),
                strictly_ascending(tile_keys(tiles@)),
                forall|a: int, j: int|
                    #![trigger tiles@[a], keys@[j]]
                    0 <= a < tiles@.len() && i <= j < keys@.len() ==> key_pair(
                        tiles@[a].x as int,
                        tiles@[a].z as int,
                    ) < keys@[j],
                forall|a: int|
                    0 <= a < tiles@.len() ==> {
                        let t = #[trigger] tiles@[a];
                        &&& keys@.contains(key_pair(t.x as int, t.z as int))
                        &&& holds_tile(m.region, t.x as int, t.z as int)
                        &&& t == tile_data(m, t.x, t.z)
                        &&& blocks@[a] == key_pair(
                            block_of(m.region, t.x as int, t.z as int).0,
                            block_of(m.region, t.x as int, t.z as int).1,
                        )
                    },
                forall|x: i32, z: i32, j: int|
                    #![trigger keys@[j], key_pair(x as int, z as int)]
                    0 <= j < i && keys@[j] == key_pair(x as int, z as int) && holds_tile(m.region, x as int, z as int)
                        ==> tiles@.contains(tile_data(m, x, z)),
            decreases keys.len() - i,
        {
            let (x, z): (i32, i32) = pair_of_key(keys[i]);
            let ghost before = tiles@;
            let ghost old_keys = tile_keys(tiles@);
            assert(keys@[i as int] == key_pair(x as int, z as int));
            proof {
                lemma_keys_injective();
            }
            if let Some((lx, lz)) = world_to_local(self.region, x, z) {
                let cell: u32 = self.overlay.get(lx, lz);
                let claim: usize = get_claim_index(cell) as usize;
                let claim_entity_id: u64 = if claim < claim_table.len() {
                    claim_table[claim]
                } else {
                    0
                };
                let data = MapTileData { x, z, paving_type_id: get_paving(cell), claim_entity_id };
                assert(data == tile_data(m, x, z));
                tiles.push(data);
                blocks.push(key_of_pair(lx / SMALL_PER_SUPER, lz / SMALL_PER_SUPER));
                proof {
                    assert(tile_keys(tiles@) =~= old_keys.push(keys@[i as int]));
                    assert(keys@.contains(keys@[i as int]));
                    assert(tiles@[before.len() as int] == data);
                    assert forall|x2: i32, z2: i32, j: int|
                        #![trigger keys@[j], key_pair(x2 as int, z2 as int)]
                        0 <= j < i + 1 && keys@[j] == key_pair(x2 as int, z2 as int) && holds_tile(
                            m.region,
                            x2 as int,
                            z2 as int,
                        ) implies tiles@.contains(tile_data(m, x2, z2)) by {
                        if j < i {
                            assert(before.contains(tile_data(m, x2, z2)));
                            let p = choose|p: int| 0 <= p < before.len() && before[p] == tile_data(m, x2, z2);
                            assert(tiles@[p] == tile_data(m, x2, z2));
                        } else {
                            assert(x2 == x && z2 == z);
                        }
                    }
                }
            }
            i += 1;
        }
        (tiles, blocks)
    }

    /// The blocks with given keys.
    fn window_blocks(&self, keys: &[u64]) -> (r: Vec<MapSuperHexData>)
        requires
            self.wf(),
            forall|i: int| 0 <= i < keys@.len() ==> is_block_key(#[trigger] keys@[i]),
        ensures
            r@.len() == keys@.len(),
            forall|i: int, bx: int, bz: int|
                #![trigger r@[i], key_pair(bx, bz)]
                0 <= i < keys@.len() && in_super_grid(bx, bz) && keys@[i] == key_pair(bx, bz) ==> r@[i] == block_data(
                    self@,
                    bx,
                    bz,
                ),
    {
        let origin = region_origin(self.region);
        let ghost m = self@;
        let mut out: Vec<MapSuperHexData> = Vec::new();
        let mut i: usize = 0;
        while i < keys.len()
            invariant
                self.wf(),
                m == self@,
                (origin.x as int, origin.z as int) == region_corner(m.region as int),
                0 <= origin.x <= 30720,
                -7680 <= origin.z <= 100_661_760,
                i <= keys@.len(),
                out@.len() == i,
                forall|j: int| 0 <= j < keys@.len() ==> is_block_key(#[trigger] keys@[j]),
                forall|j: int, bx: int, bz: int|
                    #![trigger out@[j], key_pair(bx, bz)]
                    0 <= j < i && in_super_grid(bx, bz) && keys@[j] == key_pair(bx, bz) ==> out@[j] == block_data(
                        m,
                        bx,
                        bz,
                    ),
            decreases keys.len() - i,
        {
            let (sx, sz): (i32, i32) = pair_of_key(keys[i]);
            proof {
                assert(is_block_key(keys@[i as int]));
                let (bx, bz) = choose|bx: int, bz: int|
                    in_super_grid(bx, bz) && keys@[i as int] == #[trigger] key_pair(bx, bz);
                assert(in_super_grid(bx, bz) && keys@[i as int] == key_pair(bx, bz));
                assert(bx == sx && bz == sz);
            }
            let data = MapSuperHexData {
                x: origin.x + sx * SMALL_PER_SUPER,
                z: origin.z + sz * SMALL_PER_SUPER,
                terrain: self.terrain.get(sx, sz),
            };
            assert(data == block_data(m, sx as int, sz as int));
            out.push(data);
            i += 1;
        }
        out
    }

    /// The map around a few tiles, in world coordinates. Tiles off the region
    /// and repeats are left out.
    pub fn window(&self, tiles: &[(i32, i32)]) -> (r: RegionMapWindowData)
        requires
            self.wf(),
        ensures
            is_window(self@, tiles@, r),
    {
        let origin = region_origin(self.region);
        let ghost m = self@;
        let mut keys: Vec<u64> = Vec::new();
        let mut i: usize = 0;
        while i < tiles.len()
            invariant
                i <= tiles@.len(),
                keys@.len() == i,
                forall|j: int|
                    0 <= j < i ==> #[trigger] keys@[j] == key_pair(tiles@[j].0 as int, tiles@[j].1 as int),
            decreases tiles.len() - i,
        {
            keys.push(key_of_pair(tiles[i].0, tiles[i].1));
            i += 1;
        }
        let ghost asked_keys = keys@;
        let sorted = sort_dedup_keys(keys);
        let (shown, block_list) = self.window_tiles(sorted.as_slice());
        let ghost listed = block_list@;
        let sorted_blocks = sort_dedup_keys(block_list);
        proof {
            lemma_keys_injective();
            assert forall|i: int| 0 <= i < sorted_blocks@.len() implies is_block_key(#[trigger] sorted_blocks@[i]) by {
                assert(sorted_blocks@.contains(sorted_blocks@[i]));
                assert(listed.contains(sorted_blocks@[i]));
                let j = choose|j: int| 0 <= j < listed.len() && listed[j] == sorted_blocks@[i];
                let t = shown@[j];
                let b = block_of(m.region, t.x as int, t.z as int);
                assert(in_super_grid(b.0, b.1));
                assert(sorted_blocks@[i] == key_pair(b.0, b.1));
            }
        }
        let terrain = self.window_blocks(sorted_blocks.as_slice());
        let w = RegionMapWindowData {
            region: self.region as u32,
            generation: self.generation,
            last_update_unix_ms: self.last_update_unix_ms,
            origin_x: origin.x,
            origin_z: origin.z,
            terrain,
            tiles: shown,
        };
        proof {
            assert forall|i: int| 0 <= i < w.tiles@.len() implies tiles@.contains(
                ((#[trigger] w.tiles@[i]).x, w.tiles@[i].z),
            ) by {
                let t = w.tiles@[i];
                let k = key_pair(t.x as int, t.z as int);
                assert(sorted@.contains(k));
                assert(asked_keys.contains(k));
                let j = choose|j: int| 0 <= j < asked_keys.len() && asked_keys[j] == k;
                assert(tiles@[j] == (t.x, t.z));
            }
            assert forall|k: int|
                0 <= k < tiles@.len() && holds_tile(m.region, (#[trigger] tiles@[k]).0 as int, tiles@[k].1 as int) implies
                w.tiles@.contains(tile_data(m, tiles@[k].0, tiles@[k].1)) by {
                let key = key_pair(tiles@[k].0 as int, tiles@[k].1 as int);
                assert(asked_keys[k] == key);
                assert(asked_keys.contains(key));
                assert(sorted@.contains(key));
                let j = choose|j: int| 0 <= j < sorted@.len() && sorted@[j] == key;
                assert(sorted@[j] == key);
            }
            assert forall|i: int| 0 <= i < w.terrain@.len() implies block_of_some(
                m,
                w.tiles@,
                #[trigger] w.terrain@[i],
            ) by {
                assert(sorted_blocks@.contains(sorted_blocks@[i]));
                assert(listed.contains(sorted_blocks@[i]));
                let j = choose|j: int| 0 <= j < listed.len() && listed[j] == sorted_blocks@[i];
                let t = w.tiles@[j];
                let b = block_of(m.region, t.x as int, t.z as int);
                assert(in_super_grid(b.0, b.1));
                assert(w.terrain@[i] == block_of_tile(m, w.tiles@[j]));
            }
            assert forall|j: int| 0 <= j < w.tiles@.len() implies w.terrain@.contains(
                block_of_tile(m, #[trigger] w.tiles@[j]),
            ) by {
                let t = w.tiles@[j];
                let b = block_of(m.region, t.x as int, t.z as int);
                assert(in_super_grid(b.0, b.1));
                assert(listed[j] == key_pair(b.0, b.1));
                assert(listed.contains(listed[j]));
                assert(sorted_blocks@.contains(listed[j]));
                let i = choose|i: int| 0 <= i < sorted_blocks@.len() && sorted_blocks@[i] == listed[j];
                assert(w.terrain@[i] == block_data(m, b.0, b.1));
            }
            let bk = block_keys(w.terrain@);
            assert forall|i: int, j: int| 0 <= i < j < bk.len() implies bk[i] < bk[j] by {
                assert(is_block_key(sorted_blocks@[i]) && is_block_key(sorted_blocks@[j]));
                let (ax, az) = choose|bx: int, bz: int|
                    in_super_grid(bx, bz) && sorted_blocks@[i] == #[trigger] key_pair(bx, bz);
                let (cx, cz) = choose|bx: int, bz: int|
                    in_super_grid(bx, bz) && sorted_blocks@[j] == #[trigger] key_pair(bx, bz);
                assert(in_super_grid(ax, az) && sorted_blocks@[i] == key_pair(ax, az));
                assert(in_super_grid(cx, cz) && sorted_blocks@[j] == key_pair(cx, cz));
                assert(w.terrain@[i] == block_data(m, ax, az));
                assert(w.terrain@[j] == block_data(m, cx, cz));
                lemma_block_order(m.region, (ax, az), (cx, cz));
            }
        }
        w
    }

    /// The state of the maps.
    pub fn status(&self) -> (r: RegionRoadStatus)
        requires
            self.wf(),
        ensures
            r.region == self@.region,
            r.state == if self@.ready {
                REGION_STATE_READY
            } else {
                REGION_STATE_LOADING
            },
            r.connected,
            r.loaded_at_unix_ms == self@.loaded_at,
            r.last_update_unix_ms == self@.updated_at,
            r.error@ == self@.error,
            r.memory_bytes == TERRAIN_BYTES + OVERLAY_BYTES + RESOURCE_MAP_BYTES + OVERHEAD_BYTES,
            r.claim_count == self@.claims.len() - 1,
            r.paved_tile_count == paved_count(self@.overlay),
            r.claim_tile_count == claimed_count(self@.overlay),
    {
        RegionRoadStatus {
            region: self.region as u32,
            state: if self.ready {
                REGION_STATE_READY
            } else {
                REGION_STATE_LOADING
            },
            connected: true,
            loaded_at_unix_ms: self.loaded_at_unix_ms,
            last_update_unix_ms: self.last_update_unix_ms,
            error: self.error.clone(),
            memory_bytes: self.memory_bytes(),
            claim_count: self.claim_index.distinct_claim_count(),
            paved_tile_count: self.overlay.paved_tile_count(),
            claim_tile_count: self.overlay.claim_tile_count(),
        }
    }
}

/// Blocks in the order of their coordinates in the region are in the order of
/// their coordinates in the world.
proof fn lemma_block_order(region: u16, a: (int, int), b: (int, int))
    requires
        in_super_grid(a.0, a.1),
        in_super_grid(b.0, b.1),
        key_pair(a.0, a.1) < key_pair(b.0, b.1),
        0 <= region_corner(region as int).0 <= 30720,
        -7680 <= region_corner(region as int).1 <= 100_661_760,
    ensures
        ({
            let o = region_corner(region as int);
            key_pair(
                (o.0 + a.0 * SMALL_PER_SUPER) as i32 as int,
                (o.1 + a.1 * SMALL_PER_SUPER) as i32 as int,
            ) < key_pair((o.0 + b.0 * SMALL_PER_SUPER) as i32 as int, (o.1 + b.1 * SMALL_PER_SUPER) as i32 as int)
        }),
{
    assert(a.0 < b.0 || a.0 == b.0 && a.1 < b.1);
}

/// A copy of a list.
fn copied(s: &[u64]) -> (r: Vec<u64>)
    ensures
        r@ == s@,
{
    let mut out: Vec<u64> = Vec::new();
    let mut i: usize = 0;
    while i < s.len()
        invariant
            i <= s@.len(),
            out@ == s@.take(i as int),
        decreases s.len() - i,
    {
        out.push(s[i]);
        assert(out@ =~= s@.take(i + 1));
        i += 1;
    }
    assert(s@.take(i as int) =~= s@);
    out
}

/// The tag of a map: the digest of terrain, overlay and claims in hexadecimal.
fn compute_etag(terrain: &[u8], overlay: &[u8], claim_table: &[u64]) -> (r: String)
    ensures
        r@ == hex_of(sha256_of(terrain@ + overlay@ + u64s_le(claim_table@))),
{
    let mut ids: Vec<u8> = Vec::new();
    let mut i: usize = 0;
    while i < claim_table.len()
        invariant
            i <= claim_table@.len(),
            ids@ == u64s_le(claim_table@.take(i as int)),
        decreases claim_table.len() - i,
    {
        push_le(&mut ids, claim_table[i], 8);
        assert(claim_table@.take(i + 1).drop_last() =~= claim_table@.take(i as int));
        i += 1;
    }
    assert(claim_table@.take(i as int) =~= claim_table@);
    encode(sha256(terrain, overlay, ids.as_slice()).as_slice())
}

/// Each tile that was asked for is told if the region has it, with the paving and
/// the claim that the map has there, and no other tile is told. Tiles come in the
/// order of their columns, then their rows, each once.
pub proof fn law_windows_tell_the_tiles_asked_for(
    m: GridModel,
    asked: Seq<(i32, i32)>,
    w: RegionMapWindowData,
    k: int,
    i: int,
)
    requires
        m.overlay.len() == OVERLAY_CELLS,
        is_window(m, asked, w),
        0 <= k < asked.len(),
        0 <= i < w.tiles@.len(),
    ensures
        ({
            let corner = region_corner(m.region as int);
            let (lx, lz) = (asked[k].0 - corner.0, asked[k].1 - corner.1);
            let t = w.tiles@[i];
            &&& 0 <= lx < 7680 && 0 <= lz < 7680 ==> exists|n: int|
                0 <= n < w.tiles@.len() && (#[trigger] w.tiles@[n]).x == asked[k].0 && w.tiles@[n].z == asked[k].1
                    && w.tiles@[n].paving_type_id == m.overlay[lz * 7680 + lx] as int % 0x1_0000 && shows_claim(
                    m.claims,
                    m.overlay[lz * 7680 + lx],
                    w.tiles@[n].claim_entity_id,
                )
            &&& asked.contains((t.x, t.z))
            &&& 0 <= t.x - corner.0 < 7680 && 0 <= t.z - corner.1 < 7680
            &&& i > 0 ==> w.tiles@[i - 1].x < t.x || w.tiles@[i - 1].x == t.x && w.tiles@[i - 1].z < t.z
        }),
{
    let corner = region_corner(m.region as int);
    let (lx, lz) = (asked[k].0 - corner.0, asked[k].1 - corner.1);
    let t = w.tiles@[i];
    if 0 <= lx < 7680 && 0 <= lz < 7680 {
        assert(holds_tile(m.region, asked[k].0 as int, asked[k].1 as int));
        let want = tile_data(m, asked[k].0, asked[k].1);
        assert(w.tiles@.contains(want));
        let n = choose|n: int| 0 <= n < w.tiles@.len() && w.tiles@[n] == want;
        assert(w.tiles@[n].x == asked[k].0);
    }
    assert(holds_tile(m.region, t.x as int, t.z as int));
    if i > 0 {
        let keys = tile_keys(w.tiles@);
        assert(keys[i - 1] < keys[i]);
        assert(keys[i - 1] == key_pair(w.tiles@[i - 1].x as int, w.tiles@[i - 1].z as int));
        assert(keys[i] == key_pair(t.x as int, t.z as int));
    }
}

/// Whether a claim is the one that a cell of the overlay names by its index in
/// the table of claims; an index that the table does not have names none.
pub open spec fn shows_claim(claims: Seq<u64>, cell: u32, claim: u64) -> bool {
    let slot = cell as int / 0x1_0000;
    claim == (if slot < claims.len() {
        claims[slot]
    } else {
        0
    })
}

/// A snapshot has the cells of the overlay and of the terrain one after the
/// other, the lowest byte of each first, and the claims that the cells name by
/// their index.
pub proof fn law_snapshots_hold_every_cell(m: GridModel, s: RegionMapSnapshot, k: int)
    requires
        m.is_told_by(s),
    ensures
        0 <= k < m.overlay.len() ==> from_le(s.overlay@.subrange(4 * k, 4 * k + 4)) == m.overlay[k],
        0 <= k < m.terrain.len() ==> from_le(s.terrain@.subrange(8 * k, 8 * k + 8)) == m.terrain[k],
        0 <= k < m.claims.len() ==> s.claim_table@[k] == m.claims[k],
        s.claim_table@.len() == m.claims.len(),
        s.region == m.region,
        s.generation == m.generation,
        s.last_update_unix_ms == m.updated_at,
        s.origin_x == region_corner(m.region as int).0,
        s.origin_z == region_corner(m.region as int).1,
        forall|c: u64| #[trigger] s.neutral_claim_ids@.contains(c) <==> m.neutral.dom().contains(c),
{
    assert(pow256(4) == 0x1_0000_0000 && pow256(8) == 0x1_0000_0000_0000_0000) by {
        reveal_with_fuel(pow256, 9);
    }
    if 0 <= k < m.overlay.len() {
        lemma_u32s_le_at(m.overlay, k);
        law_le_round_trip(m.overlay[k] as nat, 4);
    }
    if 0 <= k < m.terrain.len() {
        lemma_u64s_le_at(m.terrain, k);
        law_le_round_trip(m.terrain[k] as nat, 8);
    }
    assert forall|c: u64| #[trigger] s.neutral_claim_ids@.contains(c) implies m.neutral.dom().contains(c) by {
        assert(s.neutral_claim_ids@.to_set().contains(c));
    }
    assert forall|c: u64| m.neutral.dom().contains(c) implies #[trigger] s.neutral_claim_ids@.contains(c) by {
        assert(s.neutral_claim_ids@.to_set().contains(c));
    }
}

/// The tag of a snapshot is the digest of what the snapshot itself holds, all of
/// it: its terrain, its overlay and its claims, in hexadecimal. It reads back as
/// the digest.
pub proof fn law_tags_cover_the_whole_snapshot(m: GridModel, s: RegionMapSnapshot)
    requires
        m.is_told_by(s),
    ensures
        is_hex(s.etag@),
        bytes_of_hex(s.etag@) == sha256_of(s.terrain@ + s.overlay@ + u64s_le(s.claim_table@)),
{
    law_hex_round_trip(sha256_of(s.terrain@ + s.overlay@ + u64s_le(s.claim_table@)));
}

} // verus!
