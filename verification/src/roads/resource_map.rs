//! Dense resource map of a region: one 16-bit word for each tile.
//!
//! A tile word holds, from the lowest bits up: the dictionary index of the
//! content (10 bits, 0 for none), the origin flag, the direction (3 bits), the
//! paving flag and the water flag. With the paving flag the index counts
//! paving types, otherwise resource types.
//!
//! One tile holds one thing. A resource that covers several tiles takes them
//! from whatever stood there, a resource of a single tile and a paving take
//! only a tile without content. An entity remembers the words it wrote, and a
//! tile which entity stamped it last. An entity that leaves clears the tiles
//! that it stamped last, and no tile that another one has stamped since: not
//! even where both write the same word. The water flag is about the ground:
//! every write keeps it.

use vstd::prelude::*;

use super::allowlist::HarvestableIds;
use super::coords::{
    axial, corner_supers, footprint_hex_checked, footprint_tile, in_region, is_corner, odd_r, overlay_index,
    region_corner, super_of, world_to_local, REGION_SIDE, SUPER_SIDE,
};
use super::grid::{
    lemma_row_index, lemma_row_start, terrain_at, terrain_elevation, terrain_water_level, unpack_terrain_water,
    SuperHexTerrainGrid, OVERLAY_CELLS, TERRAIN_CELLS,
};
use super::type_dict::{interned, law_interning, type_slot, valid_types, TypeDict};
use crate::id_table::IdTable;
use crate::int_math::{div_floor, mod_floor};
use crate::le_bytes::{i32s_le, push_i32s_le, push_u16_le, u16s_le};

verus! {

/// Bytes of the resource map of a region.
pub const RESOURCE_MAP_BYTES: usize = 117_964_800;

/// Most tiles that one resource query may name.
pub const MAX_RESOURCE_QUERY_TILES: usize = 16384;

/// Paving flag of a tile word.
pub const PAVING_BIT: u16 = 0x4000;

/// Water flag of a tile word.
pub const WATER_BIT: u16 = 0x8000;

/// Largest resource index.
pub const MAX_RESOURCE_INDEX: u16 = 1023;

/// Largest paving index.
pub const MAX_PAVING_INDEX: u16 = 1023;

/// A tile word without its water flag.
pub open spec fn content(word: u16) -> u16 {
    (word % 0x8000) as u16
}

/// Whether a tile word has the water flag.
pub open spec fn wet(word: u16) -> bool {
    word >= 0x8000
}

/// A content with the water flag of another word.
pub open spec fn on_ground_of(c: u16, word: u16) -> u16 {
    if wet(word) {
        (c + 0x8000) as u16
    } else {
        c
    }
}

/// Index of a tile word, in either namespace.
pub open spec fn word_index(word: u16) -> u16 {
    (word % 0x400) as u16
}

/// Direction of a tile word.
pub open spec fn word_direction(word: u16) -> u8 {
    (word / 0x800 % 8) as u8
}

/// Origin flag of a tile word.
pub open spec fn word_is_origin(word: u16) -> bool {
    word / 0x400 % 2 == 1
}

/// Paving flag of a tile word.
pub open spec fn word_is_paving(word: u16) -> bool {
    word / 0x4000 % 2 == 1
}

/// The content of a tile that a resource covers.
pub open spec fn resource_word(index: u16, direction: u8, is_origin: bool) -> u16 {
    (index + 0x400 * (if is_origin {
        1int
    } else {
        0
    }) + 0x800 * direction) as u16
}

/// The content of a paved tile.
pub open spec fn paving_word(index: u16) -> u16 {
    (0x4000 + index) as u16
}

/// Number of the tile at world coordinates, where the region holds it.
pub open spec fn tile_number(region: u16, x: int, z: int) -> Option<int> {
    let corner = region_corner(region as int);
    if in_region(x - corner.0, z - corner.1) {
        Some((z - corner.1) * REGION_SIDE + (x - corner.0))
    } else {
        None
    }
}

/// The tiles after a run of writes.
pub open spec fn replay(tiles: Seq<u16>, writes: Seq<(u32, u16)>) -> Seq<u16>
    decreases writes.len(),
{
    if writes.len() == 0 {
        tiles
    } else {
        replay(tiles, writes.drop_last()).update(writes.last().0 as int, writes.last().1)
    }
}

/// The writes that put contents on the ground that is there.
pub open spec fn stamp_writes(tiles: Seq<u16>, owned: Seq<(u32, u16)>) -> Seq<(u32, u16)> {
    Seq::new(owned.len(), |j: int| (owned[j].0, on_ground_of(owned[j].1, tiles[owned[j].0 as int])))
}

/// The writes that clear those of the given contents that still stand.
pub open spec fn unstamp_writes(tiles: Seq<u16>, owned: Seq<(u32, u16)>) -> Seq<(u32, u16)>
    decreases owned.len(),
{
    if owned.len() == 0 {
        Seq::empty()
    } else {
        let before = unstamp_writes(tiles, owned.drop_last());
        let tile = owned.last().0;
        let word = replay(tiles, before)[tile as int];
        if content(word) == owned.last().1 {
            before.push((tile, on_ground_of(0, word)))
        } else {
            before
        }
    }
}

/// Whether one of the contents is for a tile.
pub open spec fn covers(owned: Seq<(u32, u16)>, tile: u32) -> bool {
    exists|j: int| 0 <= j < owned.len() && (#[trigger] owned[j]).0 == tile
}

/// Whether a content is one that a resource writes.
pub open spec fn is_resource_content(c: u16) -> bool {
    1 <= c < 0x4000
}

/// Axial step from the middle tile of a super hex to one of the 13 tiles that
/// its water wets: the middle, its six neighbours, and the six corners that it
/// shares with other super hexes.
pub open spec fn wet_step(d: int) -> (int, int) {
    if d == 0 {
        (0, 0)
    } else if d == 1 {
        (1, 0)
    } else if d == 2 {
        (-1, 0)
    } else if d == 3 {
        (0, 1)
    } else if d == 4 {
        (0, -1)
    } else if d == 5 {
        (1, -1)
    } else if d == 6 {
        (-1, 1)
    } else if d == 7 {
        (-1, -1)
    } else if d == 8 {
        (1, 1)
    } else if d == 9 {
        (-2, 1)
    } else if d == 10 {
        (1, -2)
    } else if d == 11 {
        (2, -1)
    } else {
        (-1, 2)
    }
}

/// One of the tiles that a super hex under water wets.
pub open spec fn wet_tile(sx: int, sz: int, d: int) -> (int, int) {
    let a = axial(sx, sz);
    odd_r(3 * a.0 + wet_step(d).0, 3 * a.1 + wet_step(d).1)
}

/// Whether a super hex lies under water. Off the region none does.
pub open spec fn super_is_water(terrain: Seq<u64>, sx: int, sz: int) -> bool {
    terrain_elevation(terrain_at(terrain, sx, sz)) < terrain_water_level(terrain_at(terrain, sx, sz))
}

/// Whether a tile lies under water: its super hex does, or for a corner tile
/// any of the three.
pub open spec fn ground_is_water(terrain: Seq<u64>, lx: int, lz: int) -> bool {
    if is_corner(lx, lz) {
        exists|i: int|
            0 <= i < 3 && super_is_water(
                terrain,
                (#[trigger] corner_supers(lx, lz)[i]).0,
                corner_supers(lx, lz)[i].1,
            )
    } else {
        super_is_water(terrain, super_of(lx, lz).0, super_of(lx, lz).1)
    }
}

/// Whether a tile is wet after a flood just if it was, or if its ground lies
/// under water, and shows what it showed.
pub open spec fn is_flooded_tile(before: MapModel, after: MapModel, terrain: Seq<u64>, lx: int, lz: int) -> bool {
    &&& wet(after.word(lx, lz)) <==> wet(before.word(lx, lz)) || ground_is_water(terrain, lx, lz)
    &&& content(after.word(lx, lz)) == content(before.word(lx, lz))
}

/// Whether every tile of the region is as a flood from a terrain leaves it.
pub open spec fn is_flood(before: MapModel, after: MapModel, terrain: Seq<u64>) -> bool {
    forall|lx: int, lz: int| #[trigger] in_region(lx, lz) ==> is_flooded_tile(before, after, terrain, lx, lz)
}

/// The writes that wet the tiles of the first `s` super hexes, row by row, and
/// the first `d` tiles of the next one. A tile that is wet is not written.
pub open spec fn wet_writes(tiles: Seq<u16>, terrain: Seq<u64>, s: nat, d: nat) -> Seq<(u32, u16)>
    decreases s, d,
{
    if d == 0 {
        if s == 0 {
            Seq::empty()
        } else {
            wet_writes(tiles, terrain, (s - 1) as nat, 13)
        }
    } else {
        let before = wet_writes(tiles, terrain, s, (d - 1) as nat);
        let sx = s as int % SUPER_SIDE as int;
        let sz = s as int / SUPER_SIDE as int;
        let at = wet_tile(sx, sz, d - 1);
        let i = at.1 * REGION_SIDE + at.0;
        let word = replay(tiles, before)[i];
        if super_is_water(terrain, sx, sz) && in_region(at.0, at.1) && !wet(word) {
            before.push((i as u32, (word + 0x8000) as u16))
        } else {
            before
        }
    }
}

/// One step of the 32-bit FNV-1a hash.
pub open spec fn fnv_step(h: u32, b: u8) -> u32 {
    (h ^ (b as u32)).wrapping_mul(0x0100_0193u32)
}

/// The 32-bit FNV-1a hash of a byte string.
pub open spec fn fnv1a(s: Seq<u8>) -> u32
    decreases s.len(),
{
    if s.len() == 0 {
        0x811c_9dc5u32
    } else {
        fnv_step(fnv1a(s.drop_last()), s.last())
    }
}

/// A resource entity: its type by index, its direction, its origin tile where
/// that is known, and the contents it wrote, by tile number.
#[verifier::ext_equal]
pub struct NodeModel {
    pub index: u16,
    pub direction: u8,
    pub loc: Option<(i32, i32)>,
    pub owned: Seq<(u32, u16)>,
}

/// What a resource map holds.
#[verifier::ext_equal]
pub struct MapModel {
    pub region: u16,
    pub tiles: Seq<u16>,
    pub nodes: Map<u64, NodeModel>,
    /// The entity that stamped a tile last, by tile number.
    pub stampers: Map<u32, u64>,
    pub ids: Seq<i32>,
    pub footprints: Map<u16, Seq<(i32, i32)>>,
    pub paving_ids: Seq<i32>,
    pub watch: bool,
    pub pending: Seq<(u32, u16)>,
}

/// Whether a content is one that a resource or a paving of the dictionaries
/// writes, or nothing.
pub open spec fn known_content(c: u16, ids: Seq<i32>, paving_ids: Seq<i32>) -> bool {
    ||| c == 0
    ||| c < 0x4000 && 1 <= word_index(c) < ids.len() && word_direction(c) < 6
    ||| exists|i: u16| 1 <= i < paving_ids.len() && c == #[trigger] paving_word(i)
}

/// Whether an owned content lies on the map and is one of a resource.
pub open spec fn valid_owned(o: (u32, u16), ids: Seq<i32>) -> bool {
    &&& o.0 < OVERLAY_CELLS
    &&& 1 <= o.1 < 0x4000
    &&& 1 <= word_index(o.1) < ids.len()
    &&& word_direction(o.1) < 6
}

/// Whether a node refers to a known type and remembers valid contents.
pub open spec fn valid_node(n: NodeModel, ids: Seq<i32>) -> bool {
    &&& 1 <= n.index < ids.len()
    &&& n.direction < 6
    &&& forall|j: int| 0 <= j < n.owned.len() ==> valid_owned(#[trigger] n.owned[j], ids)
    &&& forall|j: int|
        0 <= j < n.owned.len() ==> word_index((#[trigger] n.owned[j]).1) == n.index && word_direction(n.owned[j].1)
            == n.direction
}

impl MapModel {
    /// One word for each tile, and every index that occurs is in its
    /// dictionary. A tile shows a resource just if it has a last stamper, and
    /// then what that one wrote.
    pub open spec fn valid(self) -> bool {
        &&& self.sound()
        &&& forall|t: u32| #[trigger] self.tended(t)
    }

    /// Whether an entity is the last that stamped a tile.
    pub open spec fn is_stamper(self, tile: u32, entity: u64) -> bool {
        self.stampers.dom().contains(tile) && self.stampers[tile] == entity
    }

    /// Whether a tile shows what its last stamper wrote, and no resource
    /// without a last stamper.
    pub open spec fn tended(self, tile: u32) -> bool {
        if self.stampers.dom().contains(tile) {
            &&& self.nodes.dom().contains(self.stampers[tile])
            &&& self.nodes[self.stampers[tile]].owned.contains((tile, content(self.tiles[tile as int])))
        } else {
            tile < OVERLAY_CELLS ==> !is_resource_content(content(self.tiles[tile as int]))
        }
    }

    /// One word for each tile, and every index that occurs is in its
    /// dictionary.
    pub open spec fn sound(self) -> bool {
        &&& self.tiles.len() == OVERLAY_CELLS
        &&& valid_types(self.ids)
        &&& valid_types(self.paving_ids)
        &&& forall|e: u64| #[trigger] self.nodes.dom().contains(e) ==> valid_node(self.nodes[e], self.ids)
        &&& forall|i: u16| #[trigger]
            self.footprints.dom().contains(i) ==> 1 <= i < self.ids.len() && self.footprints[i].len() >= 1
        &&& forall|i: int|
            0 <= i < self.tiles.len() ==> known_content(content(#[trigger] self.tiles[i]), self.ids, self.paving_ids)
    }

    /// The map after a run of writes, which the watch records if it is on.
    pub open spec fn write(self, writes: Seq<(u32, u16)>) -> MapModel {
        MapModel {
            tiles: replay(self.tiles, writes),
            pending: if self.watch {
                self.pending + writes
            } else {
                self.pending
            },
            ..self
        }
    }

    /// The word of a tile.
    pub open spec fn word(self, lx: int, lz: int) -> u16 {
        self.tiles[lz * REGION_SIDE + lx]
    }

    /// The axial footprint of a type; a single hex where none is known.
    pub open spec fn footprint(self, index: u16) -> Seq<(i32, i32)> {
        if self.footprints.dom().contains(index) {
            self.footprints[index]
        } else {
            seq![(0i32, 0i32)]
        }
    }

    /// The contents that the first `n` cells of a resource put on the map: one
    /// for each cell in the region, but none on a taken tile if the resource
    /// is a single hex.
    pub open spec fn stamped(self, origin: (i32, i32), index: u16, direction: u8, n: nat) -> Seq<(u32, u16)>
        decreases n,
    {
        if n == 0 {
            Seq::empty()
        } else {
            let before = self.stamped(origin, index, direction, (n - 1) as nat);
            let cells = self.footprint(index);
            let at = footprint_tile(origin.0 as int, origin.1 as int, direction as int, cells[n - 1]);
            match tile_number(self.region, at.0, at.1) {
                Some(i) => if cells.len() > 1 || content(self.tiles[i]) == 0 {
                    before.push(
                        (
                            i as u32,
                            resource_word(index, direction, at == (origin.0 as int, origin.1 as int)),
                        ),
                    )
                } else {
                    before
                },
                None => before,
            }
        }
    }

    /// The contents that a resource puts on the map.
    pub open spec fn stamp_of(self, loc: Option<(i32, i32)>, index: u16, direction: u8) -> Seq<(u32, u16)> {
        match loc {
            Some(origin) => self.stamped(origin, index, direction, self.footprint(index).len()),
            None => Seq::empty(),
        }
    }

    /// The map with a node in place, its contents on the tiles.
    pub open spec fn placed(self, entity: u64, index: u16, direction: u8, loc: Option<(i32, i32)>) -> MapModel {
        let owned = self.stamp_of(loc, index, direction);
        let stamped = self.write(stamp_writes(self.tiles, owned));
        MapModel {
            nodes: stamped.nodes.insert(entity, NodeModel { index, direction, loc, owned }),
            stampers: self.stampers_with(owned, entity),
            ..stamped
        }
    }

    /// The last stampers once an entity has stamped the tiles of its contents.
    pub open spec fn stampers_with(self, owned: Seq<(u32, u16)>, entity: u64) -> Map<u32, u64> {
        Map::new(
            |t: u32| covers(owned, t) || self.stampers.dom().contains(t),
            |t: u32|
                if covers(owned, t) {
                    entity
                } else {
                    self.stampers[t]
                },
        )
    }

    /// The last stampers without an entity.
    pub open spec fn stampers_without(self, entity: u64) -> Map<u32, u64> {
        Map::new(
            |t: u32| self.stampers.dom().contains(t) && self.stampers[t] != entity,
            |t: u32| self.stampers[t],
        )
    }

    /// Those contents of an entity whose tiles nobody stamped since.
    pub open spec fn standing(self, entity: u64) -> Seq<(u32, u16)> {
        self.nodes[entity].owned.filter(|o: (u32, u16)| self.is_stamper(o.0, entity))
    }

    /// The map without an entity, its contents cleared from the tiles that it
    /// stamped last.
    pub open spec fn deleted(self, entity: u64) -> MapModel {
        if self.nodes.dom().contains(entity) {
            let cleared = self.write(unstamp_writes(self.tiles, self.standing(entity)));
            MapModel { nodes: cleared.nodes.remove(entity), stampers: self.stampers_without(entity), ..cleared }
        } else {
            self
        }
    }

    /// The map with a sighting of a resource type.
    pub open spec fn sighted(self, resource_id: i32) -> MapModel {
        MapModel { ids: interned(self.ids, resource_id), ..self }
    }

    /// The map after a resource row: the entity moves from what it was to
    /// what it is now. A type that found no room in the dictionary drops it.
    pub open spec fn upserted(self, entity: u64, resource_id: i32, direction: int, loc: Option<(i32, i32)>) -> MapModel {
        let seen = self.sighted(resource_id);
        match type_slot(seen.ids, resource_id) {
            None => seen.deleted(entity),
            Some(index) => {
                let d = (direction % 6) as u8;
                if seen.nodes.dom().contains(entity) && seen.nodes[entity].index == index && seen.nodes[entity].direction
                    == d && seen.nodes[entity].loc == loc {
                    seen
                } else {
                    seen.deleted(entity).placed(entity, index, d, loc)
                }
            },
        }
    }

    /// The map after an entity moved, or lost its place.
    pub open spec fn relocated(self, entity: u64, loc: Option<(i32, i32)>) -> MapModel {
        if self.nodes.dom().contains(entity) {
            let n = self.nodes[entity];
            self.deleted(entity).placed(entity, n.index, n.direction, loc)
        } else {
            self
        }
    }

    /// The map after a paving row.
    pub open spec fn paved(self, x: int, z: int, paving_type_id: i32) -> MapModel {
        let seen = MapModel { paving_ids: interned(self.paving_ids, paving_type_id), ..self };
        match (type_slot(seen.paving_ids, paving_type_id), tile_number(self.region, x, z)) {
            (Some(index), Some(i)) => if content(self.tiles[i]) == 0 {
                seen.write(seq![(i as u32, on_ground_of(paving_word(index), self.tiles[i]))])
            } else {
                seen
            },
            _ => seen,
        }
    }

    /// The map after a paving of a type was taken away.
    pub open spec fn unpaved(self, x: int, z: int, paving_type_id: i32) -> MapModel {
        match (type_slot(self.paving_ids, paving_type_id), tile_number(self.region, x, z)) {
            (Some(index), Some(i)) => if content(self.tiles[i]) == paving_word(index) {
                self.write(seq![(i as u32, on_ground_of(0, self.tiles[i]))])
            } else {
                self
            },
            _ => self,
        }
    }

    /// The map with the ground of a terrain: every tile under water is wet.
    pub open spec fn flooded(self, terrain: Seq<u64>) -> MapModel {
        self.write(wet_writes(self.tiles, terrain, TERRAIN_CELLS as nat, 0))
    }

    /// The version of the dictionaries: a hash of the resource types, then the
    /// paving types, each by index from 1 on.
    pub open spec fn version(self) -> u32 {
        fnv1a(i32s_le(self.ids.skip(1)) + i32s_le(self.paving_ids.skip(1)))
    }

    /// The resource that a tile shows.
    pub open spec fn resource_on(self, lx: int, lz: int) -> Option<ResourceTile> {
        if in_region(lx, lz) && content(self.word(lx, lz)) != 0 && !word_is_paving(self.word(lx, lz))
            && self.ids[word_index(self.word(lx, lz)) as int] != 0 {
            Some(
                ResourceTile {
                    resource_id: self.ids[word_index(self.word(lx, lz)) as int],
                    direction: word_direction(self.word(lx, lz)),
                    is_origin: word_is_origin(self.word(lx, lz)),
                },
            )
        } else {
            None
        }
    }

    /// The paving type that a tile shows.
    pub open spec fn paving_on(self, lx: int, lz: int) -> Option<i32> {
        if in_region(lx, lz) && word_is_paving(self.word(lx, lz)) && self.paving_ids[word_index(
            self.word(lx, lz),
        ) as int] != 0 {
            Some(self.paving_ids[word_index(self.word(lx, lz)) as int])
        } else {
            None
        }
    }

    /// The words of a window, row by row; zero off the region.
    pub open spec fn window(self, origin: (int, int), width: int) -> Seq<u16> {
        Seq::new(
            (width * width) as nat,
            |i: int|
                if in_region(origin.0 + i % width, origin.1 + i / width) {
                    self.word(origin.0 + i % width, origin.1 + i / width)
                } else {
                    0
                },
        )
    }
}

/// A resource as a tile shows it.
#[derive(Debug, Clone, Copy, PartialEq, Eq, Structural)]
pub struct ResourceTile {
    pub resource_id: i32,
    pub direction: u8,
    pub is_origin: bool,
}

/// Content of a tile that a resource covers.
pub fn encode_tile(index: u16, direction: u8, is_origin: bool) -> (r: u16)
    requires
        1 <= index <= MAX_RESOURCE_INDEX,
        direction < 6,
    ensures
        r == resource_word(index, direction, is_origin),
        word_index(r) == index,
        word_direction(r) == direction,
        word_is_origin(r) == is_origin,
        1 <= r < 0x4000,
{
    let origin: u16 = if is_origin {
        0x400
    } else {
        0
    };
    index + origin + 0x800 * direction as u16
}

/// Content of a paved tile.
pub fn encode_paving(index: u16) -> (r: u16)
    requires
        1 <= index <= MAX_PAVING_INDEX,
    ensures
        r == paving_word(index),
        word_index(r) == index,
        word_is_paving(r),
{
    PAVING_BIT + index
}

/// Index of a tile word.
pub fn tile_index(word: u16) -> (r: u16)
    ensures
        r == word_index(word),
{
    word % 0x400
}

/// Direction of a tile word.
pub fn tile_direction(word: u16) -> (r: u8)
    ensures
        r == word_direction(word),
{
    (word / 0x800 % 8) as u8
}

/// Whether a tile word has the origin flag.
pub fn tile_is_origin(word: u16) -> (r: bool)
    ensures
        r == word_is_origin(word),
{
    word / 0x400 % 2 == 1
}

/// Whether a tile word has the paving flag.
pub fn tile_is_paving(word: u16) -> (r: bool)
    ensures
        r == word_is_paving(word),
{
    word / 0x4000 % 2 == 1
}

/// Whether a tile word has content. Water alone is none.
pub fn tile_has_content(word: u16) -> (r: bool)
    ensures
        r <==> content(word) != 0,
{
    word % 0x8000 != 0
}

/// A tile word without its water flag.
fn tile_content(word: u16) -> (r: u16)
    ensures
        r == content(word),
{
    word % 0x8000
}

/// A content with the water flag of another word.
fn keep_water(c: u16, word: u16) -> (r: u16)
    requires
        c < 0x8000,
    ensures
        r == on_ground_of(c, word),
        content(r) == c,
        wet(r) == wet(word),
{
    if word >= WATER_BIT {
        c + WATER_BIT
    } else {
        c
    }
}

/// Whether a resource type is on the list of harvestable types.
pub fn is_harvestable_resource_id(list: &HarvestableIds, resource_id: i32) -> (r: bool)
    requires
        list.wf(),
    ensures
        r <==> list.lists(resource_id),
{
    list.contains(resource_id)
}

/// A resource entity of the map.
struct Node {
    index: u16,
    direction: u8,
    loc: Option<(i32, i32)>,
    owned: Vec<(u32, u16)>,
}

impl Node {
    spec fn model(&self) -> NodeModel {
        NodeModel { index: self.index, direction: self.direction, loc: self.loc, owned: self.owned@ }
    }
}

/// Whether two places are the same.
fn same_loc(a: Option<(i32, i32)>, b: Option<(i32, i32)>) -> (r: bool)
    ensures
        r <==> a == b,
{
    match (a, b) {
        (Some(p), Some(q)) => p.0 == q.0 && p.1 == q.1,
        (None, None) => true,
        _ => false,
    }
}

/// Dense resource map of one region with its dictionaries.
pub struct ResourceTileMap {
    region: u16,
    tiles: Vec<u16>,
    by_entity: IdTable<Node>,
    stampers: IdTable<u64>,
    dict: TypeDict,
    footprints: IdTable<Vec<(i32, i32)>>,
    paving: TypeDict,
    watch: bool,
    pending: Vec<(u32, u16)>,
}

impl View for ResourceTileMap {
    type V = MapModel;

    closed spec fn view(&self) -> MapModel {
        MapModel {
            region: self.region,
            tiles: self.tiles@,
            nodes: Map::new(
                |e: u64| self.by_entity@.dom().contains(e),
                |e: u64| self.by_entity@[e].model(),
            ),
            stampers: Map::new(
                |t: u32| self.stampers@.dom().contains(t as u64),
                |t: u32| self.stampers@[t as u64],
            ),
            ids: self.dict@,
            footprints: Map::new(
                |i: u16| self.footprints@.dom().contains(i as u64),
                |i: u16| self.footprints@[i as u64]@,
            ),
            paving_ids: self.paving@,
            watch: self.watch,
            pending: self.pending@,
        }
    }
}

impl ResourceTileMap {
    /// The tables are well formed and the model is valid.
    pub closed spec fn wf(&self) -> bool {
        &&& self.tables()
        &&& self@.valid()
    }

    /// The tables are well formed and what they hold fits together, but for
    /// the last stampers.
    spec fn tables(&self) -> bool {
        &&& self.by_entity.wf()
        &&& self.stampers.wf()
        &&& self.dict.wf()
        &&& self.footprints.wf()
        &&& self.paving.wf()
        &&& self@.sound()
    }

    /// What [`Self::wf`] says of the model.
    pub proof fn lemma_valid(&self)
        requires
            self.wf(),
        ensures
            self@.valid(),
    {
    }

    /// A map of dry land without content.
    pub fn new(region: u16) -> (r: Self)
        ensures
            r.wf(),
            r@ == (MapModel {
                region,
                tiles: Seq::new(OVERLAY_CELLS as nat, |i: int| 0u16),
                nodes: Map::empty(),
                stampers: Map::empty(),
                ids: seq![0i32],
                footprints: Map::empty(),
                paving_ids: seq![0i32],
                watch: false,
                pending: Seq::empty(),
            }),
    {
        let tiles: Vec<u16> = vec![0u16; OVERLAY_CELLS];
        let r = ResourceTileMap {
            region,
            tiles,
            by_entity: IdTable::new(),
            stampers: IdTable::new(),
            dict: TypeDict::new(),
            footprints: IdTable::new(),
            paving: TypeDict::new(),
            watch: false,
            pending: Vec::new(),
        };
        proof {
            assert(r@.tiles =~= Seq::new(OVERLAY_CELLS as nat, |i: int| 0u16));
            assert(r@.nodes =~= Map::empty());
            assert(r@.stampers =~= Map::empty());
            assert(r@.footprints =~= Map::empty());
        }
        r
    }

    /// Number of entities.
    pub fn len(&self) -> (r: usize)
        requires
            self.wf(),
        ensures
            r == self@.nodes.dom().len(),
    {
        assert(self@.nodes.dom() =~= self.by_entity@.dom());
        self.by_entity.len()
    }

    /// Whether there is no entity.
    pub fn is_empty(&self) -> (r: bool)
        requires
            self.wf(),
        ensures
            r <==> self@.nodes.dom() == Set::<u64>::empty(),
    {
        proof {
            assert(self@.nodes.dom() =~= self.by_entity@.dom());
            if self@.nodes.dom() == Set::<u64>::empty() {
                assert(self.by_entity@ =~= Map::<u64, Node>::empty());
            }
        }
        self.by_entity.is_empty()
    }

    /// Number of entities with a place.
    pub fn located_len(&self) -> (r: usize)
        requires
            self.wf(),
        ensures
            r == self@.nodes.dom().filter(|e: u64| self@.nodes[e].loc is Some).len(),
    {
        let ghost placed = |e: u64| self@.nodes[e].loc is Some;
        let mut n: usize = 0;
        let mut i: usize = 0;
        let ghost ids = self.by_entity.ids();
        proof {
            self.by_entity.lemma_ids();
            reveal(Seq::filter);
            assert(ids.take(0).filter(placed).len() == 0);
        }
        while i < self.by_entity.len()
            invariant
                self.wf(),
                ids == self.by_entity.ids(),
                i <= ids.len(),
                placed == (|e: u64| self@.nodes[e].loc is Some),
                n == ids.take(i as int).filter(placed).len(),
                n <= i,
            decreases ids.len() - i,
        {
            proof {
                reveal(Seq::filter);
                assert(ids.take(i + 1).drop_last() =~= ids.take(i as int));
            }
            if self.by_entity.value_at(i).loc.is_some() {
                n += 1;
            }
            i += 1;
        }
        proof {
            assert(ids.take(i as int) =~= ids);
            ids.lemma_filter_len(placed);
            let kept = ids.filter(placed);
            lemma_filter_set(ids, placed);
            self.by_entity.lemma_ids();
            assert(self@.nodes.dom() =~= self.by_entity@.dom());
            assert(kept.to_set() =~= self@.nodes.dom().filter(placed));
            kept.unique_seq_to_set();
        }
        n
    }

    /// Turns the recording of tile changes on or off.
    pub fn set_watch(&mut self, on: bool)
        requires
            old(self).wf(),
        ensures
            final(self).wf(),
            final(self)@ == (MapModel { watch: on, ..old(self)@ }),
    {
        self.watch = on;
        proof {
            lemma_still_tended(old(self)@, self@);
        }
    }

    /// Whether tile changes are recorded.
    pub fn watch_enabled(&self) -> (r: bool)
        ensures
            r == self@.watch,
    {
        self.watch
    }

    /// Takes the recorded tile changes, in the order of the writes.
    pub fn take_pending(&mut self) -> (r: Vec<(u32, u16)>)
        requires
            old(self).wf(),
        ensures
            final(self).wf(),
            r@ == old(self)@.pending,
            final(self)@ == (MapModel { pending: Seq::empty(), ..old(self)@ }),
    {
        let mut out: Vec<(u32, u16)> = Vec::new();
        std::mem::swap(&mut out, &mut self.pending);
        proof {
            assert(self@ =~= (MapModel { pending: Seq::empty(), ..old(self)@ }));
            lemma_still_tended(old(self)@, self@);
        }
        out
    }

    /// Writes one word and records it if the watch is on.
    fn put(&mut self, idx: usize, word: u16)
        requires
            idx < old(self).tiles@.len(),
            old(self).tiles@.len() == OVERLAY_CELLS,
        ensures
            final(self)@ == old(self)@.write(seq![(idx as u32, word)]),
            final(self).by_entity == old(self).by_entity,
            final(self).stampers == old(self).stampers,
            final(self).dict == old(self).dict,
            final(self).footprints == old(self).footprints,
            final(self).paving == old(self).paving,
    {
        self.tiles.set(idx, word);
        if self.watch {
            self.pending.push((idx as u32, word));
        }
        proof {
            let one = seq![(idx as u32, word)];
            assert(one.drop_last() =~= Seq::<(u32, u16)>::empty());
            assert(replay(old(self)@.tiles, one) == replay(old(self)@.tiles, one.drop_last()).update(idx as int, word));
            assert(self@ =~= old(self)@.write(one));
        }
    }

    /// A row of the resource catalogue: the type gets an index and its
    /// footprint is remembered. An empty footprint is a single hex.
    pub fn note_desc(&mut self, resource_id: i32, offsets: &[(i32, i32)])
        requires
            old(self).wf(),
        ensures
            final(self).wf(),
            ({
                let seen = old(self)@.sighted(resource_id);
                final(self)@ == match type_slot(seen.ids, resource_id) {
                    Some(index) => (MapModel {
                        footprints: seen.footprints.insert(
                            index,
                            if offsets@.len() == 0 {
                                seq![(0i32, 0i32)]
                            } else {
                                offsets@
                            },
                        ),
                        ..seen
                    }),
                    None => seen,
                }
            }),
    {
        let slot = self.intern(resource_id);
        if let Some(index) = slot {
            let mut cells: Vec<(i32, i32)> = Vec::new();
            if offsets.len() == 0 {
                cells.push((0, 0));
            } else {
                let mut i: usize = 0;
                while i < offsets.len()
                    invariant
                        i <= offsets@.len(),
                        cells@ == offsets@.take(i as int),
                    decreases offsets.len() - i,
                {
                    cells.push(offsets[i]);
                    assert(offsets@.take(i + 1) =~= offsets@.take(i as int).push(offsets@[i as int]));
                    i += 1;
                }
                assert(offsets@.take(i as int) =~= offsets@);
            }
            let ghost shape = cells@;
            assert(shape =~= if offsets@.len() == 0 {
                seq![(0i32, 0i32)]
            } else {
                offsets@
            });
            let ghost seen = self@;
            let _ = self.footprints.insert(index as u64, cells);
            proof {
                assert(self@.footprints =~= seen.footprints.insert(index, shape));
                assert(self@ =~= (MapModel { footprints: seen.footprints.insert(index, shape), ..seen }));
                lemma_still_tended(seen, self@);
            }
        }
    }

    /// The index of a resource type, given now if it has none and there is
    /// room.
    fn intern(&mut self, resource_id: i32) -> (r: Option<u16>)
        requires
            old(self).wf(),
        ensures
            final(self).wf(),
            final(self)@ == old(self)@.sighted(resource_id),
            r == type_slot(final(self)@.ids, resource_id),
            r matches Some(i) ==> 1 <= i < final(self)@.ids.len(),
            final(self).by_entity == old(self).by_entity,
    {
        proof {
            law_interning(self@.ids, resource_id);
            self.paving.lemma_valid();
        }
        let r = self.dict.intern(resource_id);
        proof {
            self.dict.lemma_valid();
            assert(self@ =~= old(self)@.sighted(resource_id));
            lemma_sighting_is_valid(old(self)@, self@.ids, self@.paving_ids);
        }
        r
    }

    /// The index of a paving type, given now if it has none and there is
    /// room.
    fn intern_paving(&mut self, paving_type_id: i32) -> (r: Option<u16>)
        requires
            old(self).wf(),
        ensures
            final(self).wf(),
            final(self)@ == (MapModel { paving_ids: interned(old(self)@.paving_ids, paving_type_id), ..old(self)@ }),
            r == type_slot(final(self)@.paving_ids, paving_type_id),
            r matches Some(i) ==> 1 <= i < final(self)@.paving_ids.len(),
    {
        proof {
            law_interning(self@.paving_ids, paving_type_id);
        }
        let r = self.paving.intern(paving_type_id);
        proof {
            self.paving.lemma_valid();
            assert(self@ =~= (MapModel { paving_ids: interned(old(self)@.paving_ids, paving_type_id), ..old(self)@ }));
            lemma_sighting_is_valid(old(self)@, self@.ids, self@.paving_ids);
        }
        r
    }

    /// Number of the tile at world coordinates, where the region holds it.
    fn tile_at(&self, x: i32, z: i32) -> (r: Option<usize>)
        ensures
            match r {
                Some(i) => tile_number(self@.region, x as int, z as int) == Some(i as int) && i < OVERLAY_CELLS,
                None => tile_number(self@.region, x as int, z as int) is None,
            },
    {
        match world_to_local(self.region, x, z) {
            Some((lx, lz)) => overlay_index(lx, lz),
            None => None,
        }
    }

    /// A paved tile, in world coordinates. It keeps what already stands there.
    pub fn stamp_paving(&mut self, x: i32, z: i32, paving_type_id: i32)
        requires
            old(self).wf(),
        ensures
            final(self).wf(),
            final(self)@ == old(self)@.paved(x as int, z as int, paving_type_id),
    {
        if let Some(index) = self.intern_paving(paving_type_id) {
            if let Some(idx) = self.tile_at(x, z) {
                if !tile_has_content(self.tiles[idx]) {
                    let word: u16 = keep_water(encode_paving(index), self.tiles[idx]);
                    let ghost seen = self@;
                    self.put(idx, word);
                    proof {
                        assert(content(word) == paving_word(index));
                        lemma_no_stamper(seen, idx as u32);
                        lemma_write_is_valid(seen, seq![(idx as u32, word)]);
                    }
                }
            }
        }
    }

    /// Takes a paving of a type away, if it still stands on the tile.
    pub fn clear_paving(&mut self, x: i32, z: i32, paving_type_id: i32)
        requires
            old(self).wf(),
        ensures
            final(self).wf(),
            final(self)@ == old(self)@.unpaved(x as int, z as int, paving_type_id),
    {
        if let Some(index) = self.paving.lookup(paving_type_id) {
            if let Some(idx) = self.tile_at(x, z) {
                if tile_content(self.tiles[idx]) == encode_paving(index) {
                    let word: u16 = keep_water(0, self.tiles[idx]);
                    let ghost seen = self@;
                    self.put(idx, word);
                    proof {
                        lemma_no_stamper(seen, idx as u32);
                        lemma_write_is_valid(seen, seq![(idx as u32, word)]);
                    }
                }
            }
        }
    }

    /// Sets the water flag of every tile under water. It is never taken away,
    /// and contents stay as they are.
    pub fn fill_water_from_terrain(&mut self, terrain: &SuperHexTerrainGrid)
        requires
            old(self).wf(),
            terrain.wf(),
        ensures
            final(self).wf(),
            final(self)@ == old(self)@.flooded(terrain.words()),
            is_flood(old(self)@, final(self)@, terrain.words()),
    {
        let ghost m = self@;
        let mut s: usize = 0;
        proof {
            assert(m.pending + Seq::<(u32, u16)>::empty() =~= m.pending);
            assert(m.write(Seq::empty()) =~= m);
        }
        while s < TERRAIN_CELLS
            invariant
                s <= TERRAIN_CELLS,
                terrain.wf(),
                self.wf(),
                self@ == m.write(wet_writes(m.tiles, terrain.words(), s as nat, 0)),
            decreases TERRAIN_CELLS - s,
        {
            let sx: i32 = (s % 2560) as i32;
            let sz: i32 = (s / 2560) as i32;
            let (elev, water) = unpack_terrain_water(terrain.get(sx, sz));
            if elev < water {
                self.wet_super_hex_tiles(sx, sz, Ghost(m), Ghost(terrain.words()), Ghost(s as nat));
            } else {
                proof {
                    lemma_land_writes_nothing(m.tiles, terrain.words(), s as nat, 13);
                }
            }
            s += 1;
        }
        proof {
            assert forall|lx: int, lz: int| #[trigger] in_region(lx, lz) implies is_flooded_tile(
                m,
                self@,
                terrain.words(),
                lx,
                lz,
            ) by {
                super::resource_laws::law_flood_follows_the_terrain(m, terrain.words(), lx, lz);
            }
        }
    }

    /// Wets the tiles of one super hex.
    fn wet_super_hex_tiles(
        &mut self,
        sx: i32,
        sz: i32,
        Ghost(m): Ghost<MapModel>,
        Ghost(terrain): Ghost<Seq<u64>>,
        Ghost(s): Ghost<nat>,
    )
        requires
            old(self).wf(),
            s < TERRAIN_CELLS,
            sx == s as int % SUPER_SIDE as int,
            sz == s as int / SUPER_SIDE as int,
            super_is_water(terrain, sx as int, sz as int),
            old(self)@ == m.write(wet_writes(m.tiles, terrain, s, 0)),
        ensures
            final(self).wf(),
            final(self)@ == m.write(wet_writes(m.tiles, terrain, s, 13)),
    {
        let q: i32 = sx - (sz / 2);
        let steps: [(i32, i32); 13] = [
            (0, 0),
            (1, 0),
            (-1, 0),
            (0, 1),
            (0, -1),
            (1, -1),
            (-1, 1),
            (-1, -1),
            (1, 1),
            (-2, 1),
            (1, -2),
            (2, -1),
            (-1, 2),
        ];
        let mut d: usize = 0;
        while d < 13
            invariant
                d <= 13,
                self.wf(),
                0 <= sx < SUPER_SIDE,
                0 <= sz < SUPER_SIDE,
                q == axial(sx as int, sz as int).0,
                sx == s as int % SUPER_SIDE as int,
                sz == s as int / SUPER_SIDE as int,
                super_is_water(terrain, sx as int, sz as int),
                forall|k: int| 0 <= k < 13 ==> (#[trigger] steps@[k].0 as int, steps@[k].1 as int) == wet_step(k),
                self@ == m.write(wet_writes(m.tiles, terrain, s, d as nat)),
            decreases 13 - d,
        {
            let (dq, dr) = steps[d];
            assert((dq as int, dr as int) == wet_step(d as int));
            let r: i32 = 3 * sz + dr;
            let lx: i32 = 3 * q + dq + div_floor(r as i64, 2) as i32;
            let ghost at = wet_tile(sx as int, sz as int, d as int);
            assert(at == (lx as int, r as int));
            let ghost now = self@;
            if let Some(idx) = overlay_index(lx, r) {
                let dry: u16 = self.tiles[idx];
                if dry < WATER_BIT {
                    let word: u16 = dry + WATER_BIT;
                    self.put(idx, word);
                    proof {
                        let w = wet_writes(m.tiles, terrain, s, d as nat);
                        assert(w.push((idx as u32, word)) =~= w + seq![(idx as u32, word)]);
                        lemma_write_twice(m, w, seq![(idx as u32, word)]);
                        assert(known_content(content(now.tiles[idx as int]), now.ids, now.paving_ids));
                        lemma_write_is_valid(now, seq![(idx as u32, word)]);
                    }
                }
            }
            d += 1;
        }
    }

    /// Inserts or updates a resource entity. `loc` is its origin tile in world
    /// coordinates, where that is known.
    pub fn upsert(&mut self, entity_id: u64, resource_id: i32, direction: i32, loc: Option<(i32, i32)>)
        requires
            old(self).wf(),
        ensures
            final(self).wf(),
            final(self)@ == old(self)@.upserted(entity_id, resource_id, direction as int, loc),
    {
        let slot = self.intern(resource_id);
        let ghost seen = self@;
        let index: u16 = match slot {
            Some(index) => index,
            None => {
                self.delete(entity_id);
                return;
            },
        };
        let turned: u8 = mod_floor(direction as i64, 6) as u8;
        if let Some(node) = self.by_entity.get(entity_id) {
            if node.index == index && node.direction == turned && same_loc(node.loc, loc) {
                return;
            }
        }
        self.delete(entity_id);
        self.place(entity_id, index, turned, loc);
    }

    /// Takes an entity off the map.
    pub fn delete(&mut self, entity_id: u64)
        requires
            old(self).wf(),
        ensures
            final(self).wf(),
            final(self)@ == old(self)@.deleted(entity_id),
            !final(self)@.nodes.dom().contains(entity_id),
    {
        let ghost before = self@;
        if let Some(node) = self.by_entity.remove(entity_id) {
            let ghost bare = MapModel { nodes: before.nodes.remove(entity_id), ..before };
            assert(self@ =~= bare);
            assert(before.nodes.dom().contains(entity_id));
            assert(node.owned@ == before.nodes[entity_id].owned);
            assert(valid_node(before.nodes[entity_id], before.ids));
            self.unstamp(node.owned.as_slice(), entity_id);
            let ghost cleared = self@;
            proof {
                let p = |o: (u32, u16)| before.is_stamper(o.0, entity_id);
                let q = |o: (u32, u16)| bare.is_stamper(o.0, entity_id);
                assert(p =~= q);
                assert(before.standing(entity_id) == node.owned@.filter(q));
            }
            self.forget_stamper(node.owned.as_slice(), entity_id);
            proof {
                assert forall|t: u32| #[trigger] before.is_stamper(t, entity_id) implies covers(node.owned@, t) by {
                    assert(before.tended(t));
                    let o = (t, content(before.tiles[t as int]));
                    let j = choose|j: int| 0 <= j < node.owned@.len() && node.owned@[j] == o;
                    assert(node.owned@[j].0 == t);
                }
                assert(self@.stampers =~= before.stampers_without(entity_id)) by {
                    assert forall|t: u32| self@.stampers.dom().contains(t) <==> before.stampers_without(entity_id).dom().contains(
                        t,
                    ) by {
                        assert(before.is_stamper(t, entity_id) == bare.is_stamper(t, entity_id));
                    }
                }
                assert(self@ =~= before.deleted(entity_id));
                lemma_deleted_is_valid(before, entity_id);
            }
        } else {
            assert(self@ =~= before);
        }
    }

    /// Puts an entity that the map does not hold on it.
    fn place(&mut self, entity_id: u64, index: u16, direction: u8, loc: Option<(i32, i32)>)
        requires
            old(self).wf(),
            1 <= index < old(self)@.ids.len(),
            direction < 6,
            !old(self)@.nodes.dom().contains(entity_id),
        ensures
            final(self).wf(),
            final(self)@ == old(self)@.placed(entity_id, index, direction, loc),
    {
        let ghost before = self@;
        let owned: Vec<(u32, u16)> = match loc {
            Some(origin) => self.stamp_footprint(origin, index, direction),
            None => {
                proof {
                    let none = stamp_writes(before.tiles, Seq::empty());
                    assert(none =~= Seq::<(u32, u16)>::empty());
                    assert(before.pending + none =~= before.pending);
                    assert(before.write(none) =~= before);
                }
                Vec::new()
            },
        };
        self.note_stamper(owned.as_slice(), entity_id);
        let ghost stamped = self@;
        let ghost node = NodeModel { index, direction, loc, owned: owned@ };
        let _ = self.by_entity.insert(entity_id, Node { index, direction, loc, owned });
        proof {
            assert(self@.nodes =~= stamped.nodes.insert(entity_id, node));
            assert(self@ =~= before.placed(entity_id, index, direction, loc));
            lemma_placed_is_valid(before, entity_id, index, direction, loc);
        }
    }

    /// An entity that the map holds moved to another origin tile.
    pub fn set_location(&mut self, entity_id: u64, x: i32, z: i32)
        requires
            old(self).wf(),
        ensures
            final(self).wf(),
            final(self)@ == if old(self)@.nodes.dom().contains(entity_id) && old(self)@.nodes[entity_id].loc == Some(
                (x, z),
            ) {
                old(self)@
            } else {
                old(self)@.relocated(entity_id, Some((x, z)))
            },
    {
        let (index, direction) = match self.by_entity.get(entity_id) {
            Some(node) => {
                if same_loc(node.loc, Some((x, z))) {
                    return;
                }
                (node.index, node.direction)
            },
            None => {
                return;
            },
        };
        assert(self@.nodes.dom().contains(entity_id));
        self.delete(entity_id);
        self.place(entity_id, index, direction, Some((x, z)));
    }

    /// An entity that the map holds lost its place.
    pub fn clear_location(&mut self, entity_id: u64)
        requires
            old(self).wf(),
        ensures
            final(self).wf(),
            final(self)@ == old(self)@.relocated(entity_id, None),
    {
        let (index, direction) = match self.by_entity.get(entity_id) {
            Some(node) => (node.index, node.direction),
            None => {
                return;
            },
        };
        assert(self@.nodes.dom().contains(entity_id));
        self.delete(entity_id);
        self.place(entity_id, index, direction, None);
    }

    /// Type and origin tile of an entity.
    pub fn resource_of(&self, entity_id: u64) -> (r: Option<(i32, Option<(i32, i32)>)>)
        requires
            self.wf(),
        ensures
            r == if self@.nodes.dom().contains(entity_id) {
                Some((self@.ids[self@.nodes[entity_id].index as int], self@.nodes[entity_id].loc))
            } else {
                None
            },
    {
        match self.by_entity.get(entity_id) {
            Some(node) => {
                assert(self@.nodes.dom().contains(entity_id));
                Some((self.dict.id_at(node.index), node.loc))
            },
            None => None,
        }
    }

    /// The word of a region-local tile; zero off the region.
    pub fn word_at_local(&self, lx: i32, lz: i32) -> (r: u16)
        requires
            self.wf(),
        ensures
            r == if in_region(lx as int, lz as int) {
                self@.word(lx as int, lz as int)
            } else {
                0
            },
    {
        match overlay_index(lx, lz) {
            Some(idx) => self.tiles[idx],
            None => 0,
        }
    }

    /// The resource on a region-local tile; `None` off the region, without
    /// content and on a paved tile.
    pub fn resource_at_local(&self, lx: i32, lz: i32) -> (r: Option<ResourceTile>)
        requires
            self.wf(),
        ensures
            r == self@.resource_on(lx as int, lz as int),
    {
        match overlay_index(lx, lz) {
            Some(idx) => {
                let word: u16 = self.tiles[idx];
                if !tile_has_content(word) || tile_is_paving(word) {
                    return None;
                }
                proof {
                    assert(self@.tiles[idx as int] == word);
                    assert(known_content(content(word), self@.ids, self@.paving_ids));
                    lemma_known_resource(word, self@.ids, self@.paving_ids);
                }
                let resource_id: i32 = self.dict.id_at(tile_index(word));
                if resource_id == 0 {
                    return None;
                }
                Some(ResourceTile { resource_id, direction: tile_direction(word), is_origin: tile_is_origin(word) })
            },
            None => None,
        }
    }

    /// The paving type on a region-local tile.
    pub fn paving_at_local(&self, lx: i32, lz: i32) -> (r: Option<i32>)
        requires
            self.wf(),
        ensures
            r == self@.paving_on(lx as int, lz as int),
    {
        match overlay_index(lx, lz) {
            Some(idx) => {
                let word: u16 = self.tiles[idx];
                if !tile_is_paving(word) {
                    return None;
                }
                proof {
                    assert(self@.tiles[idx as int] == word);
                    assert(known_content(content(word), self@.ids, self@.paving_ids));
                    lemma_known_paving(word, self@.ids, self@.paving_ids);
                }
                let id: i32 = self.paving.id_at(tile_index(word));
                if id == 0 {
                    None
                } else {
                    Some(id)
                }
            },
            None => None,
        }
    }

    /// Window of `width` by `width` words as bytes, row by row, from the
    /// region-local tile `origin`, which may lie off the region: such words
    /// are zero.
    pub fn window(&self, origin: (i32, i32), width: usize) -> (r: Vec<u8>)
        requires
            self.wf(),
            width <= i32::MAX,
            width * width <= usize::MAX,
        ensures
            r@ == u16s_le(self@.window((origin.0 as int, origin.1 as int), width as int)),
    {
        let ghost o = (origin.0 as int, origin.1 as int);
        let ghost all = self@.window(o, width as int);
        let mut out: Vec<u8> = Vec::new();
        let mut row: usize = 0;
        assert(all.take(0) =~= Seq::<u16>::empty());
        while row < width
            invariant
                self.wf(),
                row <= width <= i32::MAX,
                o == (origin.0 as int, origin.1 as int),
                all == self@.window(o, width as int),
                0 <= row * width <= all.len(),
                out@ == u16s_le(all.take(row * width)),
            decreases width - row,
        {
            let mut col: usize = 0;
            proof {
                lemma_row_start(row as int, width as int, width as int);
            }
            while col < width
                invariant
                    self.wf(),
                    row < width <= i32::MAX,
                    col <= width,
                    o == (origin.0 as int, origin.1 as int),
                    all == self@.window(o, width as int),
                    0 <= row * width,
                    row * width + width <= all.len(),
                    out@ == u16s_le(all.take(row * width + col)),
                decreases width - col,
            {
                let lx: i64 = origin.0 as i64 + col as i64;
                let lz: i64 = origin.1 as i64 + row as i64;
                let word: u16 = if lx < 0 || lx >= REGION_SIDE as i64 || lz < 0 || lz >= REGION_SIDE as i64 {
                    0
                } else {
                    self.word_at_local(lx as i32, lz as i32)
                };
                push_u16_le(&mut out, word);
                proof {
                    let k = row * width + col;
                    lemma_row_index(row as int, col as int, width as int);
                    assert(all[k] == word);
                    assert(all.take(k + 1).drop_last() =~= all.take(k));
                }
                col += 1;
            }
            proof {
                assert((row + 1) * width == row * width + width) by (nonlinear_arith);
            }
            row += 1;
        }
        assert(all.take(width * width) =~= all);
        out
    }

    /// Resource types by index; index 0 stands for none.
    pub fn dict_ids(&self) -> (r: &[i32])
        ensures
            r@ == self@.ids,
    {
        self.dict.ids()
    }

    /// Paving types by index; index 0 stands for none.
    pub fn dict_paving_ids(&self) -> (r: &[i32])
        ensures
            r@ == self@.paving_ids,
    {
        self.paving.ids()
    }

    /// The version of the dictionaries, which changes with them.
    pub fn dict_version(&self) -> (r: u32)
        requires
            self.wf(),
        ensures
            r == self@.version(),
    {
        let mut bytes: Vec<u8> = Vec::new();
        let ids = self.dict.ids();
        let paving_ids = self.paving.ids();
        proof {
            self.dict.lemma_valid();
            self.paving.lemma_valid();
        }
        push_i32s_le(&mut bytes, vstd::slice::slice_subrange(ids, 1, ids.len()));
        push_i32s_le(&mut bytes, vstd::slice::slice_subrange(paving_ids, 1, paving_ids.len()));
        proof {
            assert(ids@.subrange(1, ids@.len() as int) =~= self@.ids.skip(1));
            assert(paving_ids@.subrange(1, paving_ids@.len() as int) =~= self@.paving_ids.skip(1));
            assert(bytes@ =~= i32s_le(self@.ids.skip(1)) + i32s_le(self@.paving_ids.skip(1)));
        }
        fnv1a_hash(bytes.as_slice())
    }

    /// Puts a resource on the tiles and returns the contents that it wrote.
    fn stamp_footprint(&mut self, origin: (i32, i32), index: u16, direction: u8) -> (r: Vec<(u32, u16)>)
        requires
            old(self).tables(),
            1 <= index < old(self)@.ids.len(),
            direction < 6,
        ensures
            final(self).tables(),
            r@ == old(self)@.stamp_of(Some(origin), index, direction),
            final(self)@ == old(self)@.write(stamp_writes(old(self)@.tiles, r@)),
            final(self).stampers == old(self).stampers,
            final(self).by_entity == old(self).by_entity,
            forall|j: int| 0 <= j < r@.len() ==> valid_owned(#[trigger] r@[j], old(self)@.ids),
    {
        let ghost m = self@;
        let cells: Vec<(i32, i32)> = self.cells_of(index);
        let multi: bool = cells.len() > 1;
        let mut owned: Vec<(u32, u16)> = Vec::new();
        let mut n: usize = 0;
        proof {
            let none = stamp_writes(m.tiles, owned@);
            assert(none =~= Seq::<(u32, u16)>::empty());
            assert(m.pending + none =~= m.pending);
            assert(m.write(none) =~= m);
        }
        while n < cells.len()
            invariant
                n <= cells@.len(),
                cells@ == m.footprint(index),
                multi == (cells@.len() > 1),
                1 <= index < m.ids.len(),
                direction < 6,
                m.sound(),
                self.tables(),
                self.stampers == old(self).stampers,
                self.by_entity == old(self).by_entity,
                owned@ == m.stamped(origin, index, direction, n as nat),
                self@ == m.write(stamp_writes(m.tiles, owned@)),
                !multi ==> n == 0 || n == cells@.len(),
                n == 0 ==> owned@.len() == 0,
                forall|j: int| 0 <= j < owned@.len() ==> valid_owned(#[trigger] owned@[j], m.ids),
            decreases cells.len() - n,
        {
            let ghost before = owned@;
            let ghost now = self@;
            let at = footprint_hex_checked(origin.0, origin.1, direction as i32, cells[n]);
            let ghost tile = footprint_tile(origin.0 as int, origin.1 as int, direction as int, cells@[n as int]);
            let spot: Option<usize> = match at {
                Some((x, z)) => self.tile_at(x, z),
                None => None,
            };
            proof {
                if at is None {
                    assert(tile_number(m.region, tile.0, tile.1) is None);
                }
                lemma_stamp_water(m.tiles, before, m.ids);
                if n == 0 {
                    assert(stamp_writes(m.tiles, before) =~= Seq::<(u32, u16)>::empty());
                }
            }
            if let Some(idx) = spot {
                if multi || !tile_has_content(self.tiles[idx]) {
                    let (x, z) = match at {
                        Some(p) => p,
                        None => (0, 0),
                    };
                    let word: u16 = encode_tile(index, direction, x == origin.0 && z == origin.1);
                    let full: u16 = keep_water(word, self.tiles[idx]);
                    self.put(idx, full);
                    owned.push((idx as u32, word));
                    proof {
                        assert(tile_number(m.region, tile.0, tile.1) == Some(idx as int));
                        let w1 = stamp_writes(m.tiles, before);
                        let w2 = stamp_writes(m.tiles, owned@);
                        assert(valid_owned((idx as u32, word), m.ids));
                        assert(on_ground_of(word, now.tiles[idx as int]) == on_ground_of(word, m.tiles[idx as int]));
                        assert(w2 =~= w1 + seq![(idx as u32, full)]);
                        lemma_write_twice(m, w1, seq![(idx as u32, full)]);
                        lemma_write_is_sound(now, seq![(idx as u32, full)]);
                    }
                }
            }
            n += 1;
        }
        owned
    }

    /// The footprint of a type.
    fn cells_of(&self, index: u16) -> (r: Vec<(i32, i32)>)
        requires
            self.tables(),
        ensures
            r@ == self@.footprint(index),
            r@.len() >= 1,
    {
        match self.footprints.get(index as u64) {
            Some(cells) => {
                assert(self@.footprints.dom().contains(index));
                let mut out: Vec<(i32, i32)> = Vec::new();
                let mut i: usize = 0;
                while i < cells.len()
                    invariant
                        i <= cells@.len(),
                        out@ == cells@.take(i as int),
                    decreases cells.len() - i,
                {
                    out.push(cells[i]);
                    assert(cells@.take(i + 1) =~= cells@.take(i as int).push(cells@[i as int]));
                    i += 1;
                }
                assert(cells@.take(i as int) =~= cells@);
                out
            },
            None => {
                assert(!self@.footprints.dom().contains(index));
                let mut out: Vec<(i32, i32)> = Vec::new();
                out.push((0, 0));
                assert(out@ =~= seq![(0i32, 0i32)]);
                out
            },
        }
    }

    /// Clears those of the given contents that still stand on tiles that an
    /// entity stamped last.
    fn unstamp(&mut self, owned: &[(u32, u16)], entity_id: u64)
        requires
            old(self).tables(),
            forall|j: int| 0 <= j < owned@.len() ==> valid_owned(#[trigger] owned@[j], old(self)@.ids),
        ensures
            final(self).tables(),
            final(self)@ == old(self)@.write(
                unstamp_writes(
                    old(self)@.tiles,
                    owned@.filter(|o: (u32, u16)| old(self)@.is_stamper(o.0, entity_id)),
                ),
            ),
            final(self).stampers == old(self).stampers,
            final(self).by_entity == old(self).by_entity,
    {
        let ghost m = self@;
        let ghost last = |o: (u32, u16)| m.is_stamper(o.0, entity_id);
        let mut j: usize = 0;
        proof {
            reveal(Seq::filter);
            assert(owned@.take(0).filter(last) =~= Seq::<(u32, u16)>::empty());
            assert(m.pending + Seq::<(u32, u16)>::empty() =~= m.pending);
            assert(m.write(Seq::empty()) =~= m);
        }
        while j < owned.len()
            invariant
                j <= owned@.len(),
                self.tables(),
                m.sound(),
                m == old(self)@,
                self.stampers == old(self).stampers,
                self.by_entity == old(self).by_entity,
                last == (|o: (u32, u16)| m.is_stamper(o.0, entity_id)),
                forall|j: int| 0 <= j < owned@.len() ==> valid_owned(#[trigger] owned@[j], m.ids),
                self@ == m.write(unstamp_writes(m.tiles, owned@.take(j as int).filter(last))),
            decreases owned.len() - j,
        {
            let ghost now = self@;
            let ghost mine = owned@.take(j as int).filter(last);
            let idx: usize = owned[j].0 as usize;
            proof {
                reveal(Seq::filter);
                assert(valid_owned(owned@[j as int], m.ids));
                assert(owned@.take(j + 1).drop_last() =~= owned@.take(j as int));
                assert(owned@.take(j + 1).last() == owned@[j as int]);
            }
            if self.stamped_by(owned[j].0, entity_id) {
                proof {
                    let more = owned@.take(j + 1).filter(last);
                    assert(last(owned@[j as int]));
                    assert(more =~= mine.push(owned@[j as int]));
                    assert(more.drop_last() =~= mine);
                }
                if tile_content(self.tiles[idx]) == owned[j].1 {
                    let word: u16 = keep_water(0, self.tiles[idx]);
                    self.put(idx, word);
                    proof {
                        let w = unstamp_writes(m.tiles, mine);
                        assert(w.push((idx as u32, word)) =~= w + seq![(idx as u32, word)]);
                        lemma_write_twice(m, w, seq![(idx as u32, word)]);
                        lemma_write_is_sound(now, seq![(idx as u32, word)]);
                    }
                }
            } else {
                assert(!last(owned@[j as int]));
                assert(owned@.take(j + 1).filter(last) =~= mine);
            }
            j += 1;
        }
        assert(owned@.take(j as int) =~= owned@);
    }

    /// Whether an entity is the last that stamped a tile.
    fn stamped_by(&self, tile: u32, entity_id: u64) -> (r: bool)
        requires
            self.tables(),
        ensures
            r == self@.is_stamper(tile, entity_id),
    {
        match self.stampers.get(tile as u64) {
            Some(e) => *e == entity_id,
            None => false,
        }
    }

    /// Notes an entity as the last that stamped the tiles of its contents.
    fn note_stamper(&mut self, owned: &[(u32, u16)], entity_id: u64)
        requires
            old(self).tables(),
        ensures
            final(self).tables(),
            final(self)@ == (MapModel { stampers: old(self)@.stampers_with(owned@, entity_id), ..old(self)@ }),
            final(self).by_entity == old(self).by_entity,
    {
        let ghost m = self@;
        let mut j: usize = 0;
        proof {
            assert(m.stampers_with(owned@.take(0), entity_id) =~= m.stampers);
        }
        while j < owned.len()
            invariant
                j <= owned@.len(),
                self.tables(),
                m.sound(),
                m == old(self)@,
                self.by_entity == old(self).by_entity,
                self@ == (MapModel { stampers: m.stampers_with(owned@.take(j as int), entity_id), ..m }),
            decreases owned.len() - j,
        {
            let ghost now = self@;
            let tile: u32 = owned[j].0;
            let _ = self.stampers.insert(tile as u64, entity_id);
            proof {
                let some = owned@.take(j as int);
                let more = owned@.take(j + 1);
                assert forall|t: u32| #[trigger] covers(more, t) <==> covers(some, t) || t == tile by {
                    if covers(some, t) {
                        let k = choose|k: int| 0 <= k < some.len() && (#[trigger] some[k]).0 == t;
                        assert(more[k].0 == t);
                    }
                    if t == tile {
                        assert(more[j as int].0 == t);
                    }
                    if covers(more, t) {
                        let k = choose|k: int| 0 <= k < more.len() && (#[trigger] more[k]).0 == t;
                        if k < j {
                            assert(some[k].0 == t);
                        }
                    }
                }
                assert(self@.stampers =~= now.stampers.insert(tile, entity_id));
                assert(self@.stampers =~= m.stampers_with(more, entity_id));
                assert(self@ =~= (MapModel { stampers: m.stampers_with(more, entity_id), ..m }));
            }
            j += 1;
        }
        assert(owned@.take(j as int) =~= owned@);
    }

    /// Forgets an entity as the last that stamped the tiles of its contents.
    fn forget_stamper(&mut self, owned: &[(u32, u16)], entity_id: u64)
        requires
            old(self).tables(),
        ensures
            final(self).tables(),
            final(self)@ == (MapModel { stampers: final(self)@.stampers, ..old(self)@ }),
            forall|t: u32| #[trigger]
                final(self)@.stampers.dom().contains(t) <==> old(self)@.stampers.dom().contains(t) && !(old(
                    self,
                )@.is_stamper(t, entity_id) && covers(owned@, t)),
            forall|t: u32| #[trigger]
                final(self)@.stampers.dom().contains(t) ==> final(self)@.stampers[t] == old(self)@.stampers[t],
            final(self).by_entity == old(self).by_entity,
    {
        let ghost m = self@;
        let mut j: usize = 0;
        while j < owned.len()
            invariant
                j <= owned@.len(),
                self.tables(),
                m.sound(),
                m == old(self)@,
                self.by_entity == old(self).by_entity,
                self@ == (MapModel { stampers: self@.stampers, ..m }),
                forall|t: u32| #[trigger]
                    self@.stampers.dom().contains(t) <==> m.stampers.dom().contains(t) && !(m.is_stamper(t, entity_id)
                        && covers(owned@.take(j as int), t)),
                forall|t: u32| #[trigger] self@.stampers.dom().contains(t) ==> self@.stampers[t] == m.stampers[t],
            decreases owned.len() - j,
        {
            let ghost now = self@;
            let tile: u32 = owned[j].0;
            if self.stamped_by(tile, entity_id) {
                let _ = self.stampers.remove(tile as u64);
                assert(self@.stampers =~= now.stampers.remove(tile));
                assert(self@ =~= (MapModel { stampers: self@.stampers, ..m }));
            }
            proof {
                let some = owned@.take(j as int);
                let more = owned@.take(j + 1);
                assert forall|t: u32| #[trigger] covers(more, t) <==> covers(some, t) || t == tile by {
                    if covers(some, t) {
                        let k = choose|k: int| 0 <= k < some.len() && (#[trigger] some[k]).0 == t;
                        assert(more[k].0 == t);
                    }
                    if t == tile {
                        assert(more[j as int].0 == t);
                    }
                    if covers(more, t) {
                        let k = choose|k: int| 0 <= k < more.len() && (#[trigger] more[k]).0 == t;
                        if k < j {
                            assert(some[k].0 == t);
                        }
                    }
                }
            }
            j += 1;
        }
        assert(owned@.take(j as int) =~= owned@);
    }
}

/// Computes the 32-bit FNV-1a hash of a byte string.
pub fn fnv1a_hash(bytes: &[u8]) -> (r: u32)
    ensures
        r == fnv1a(bytes@),
{
    let mut h: u32 = 0x811c_9dc5;
    let mut i: usize = 0;
    while i < bytes.len()
        invariant
            i <= bytes@.len(),
            h == fnv1a(bytes@.take(i as int)),
        decreases bytes.len() - i,
    {
        assert(bytes@.take(i + 1).drop_last() =~= bytes@.take(i as int));
        h = (h ^ (bytes[i] as u32)).wrapping_mul(0x0100_0193);
        i += 1;
    }
    assert(bytes@.take(i as int) =~= bytes@);
    h
}

/// A super hex above water wets nothing.
proof fn lemma_land_writes_nothing(tiles: Seq<u16>, terrain: Seq<u64>, s: nat, d: nat)
    requires
        !super_is_water(terrain, s as int % SUPER_SIDE as int, s as int / SUPER_SIDE as int),
    ensures
        wet_writes(tiles, terrain, s, d) == wet_writes(tiles, terrain, s, 0),
    decreases d,
{
    if d > 0 {
        lemma_land_writes_nothing(tiles, terrain, s, (d - 1) as nat);
    }
}

/// Members of a filtered run.
proof fn lemma_filter_set(s: Seq<u64>, p: spec_fn(u64) -> bool)
    requires
        s.no_duplicates(),
    ensures
        s.filter(p).no_duplicates(),
        forall|e: u64|
            #![trigger s.filter(p).contains(e)]
            #![trigger s.contains(e)]
            s.filter(p).contains(e) <==> s.contains(e) && p(e),
    decreases s.len(),
{
    reveal(Seq::filter);
    if s.len() > 0 {
        let t = s.drop_last();
        let f = t.filter(p);
        lemma_filter_set(t, p);
        assert forall|e: u64|
            #![trigger s.filter(p).contains(e)]
            #![trigger s.contains(e)]
            s.filter(p).contains(e) <==> s.contains(e) && p(e) by {
            if s.contains(e) && p(e) {
                let i = choose|i: int| 0 <= i < s.len() && s[i] == e;
                if i < t.len() {
                    assert(t[i] == e);
                    assert(f.contains(e));
                    let k = choose|k: int| 0 <= k < f.len() && f[k] == e;
                    assert(s.filter(p)[k] == e);
                } else {
                    assert(s.filter(p).last() == e);
                }
            }
            if s.filter(p).contains(e) {
                let k = choose|k: int| 0 <= k < s.filter(p).len() && s.filter(p)[k] == e;
                if k < f.len() {
                    assert(f[k] == e);
                    assert(f.contains(e));
                    let i = choose|i: int| 0 <= i < t.len() && t[i] == e;
                    assert(s[i] == e);
                } else {
                    assert(s[s.len() - 1] == e);
                }
            }
        }
        assert forall|i: int, j: int| 0 <= i < j < s.filter(p).len() implies s.filter(p)[i] != s.filter(p)[j] by {
            if j == f.len() {
                assert(f.contains(f[i]));
                let k = choose|k: int| 0 <= k < t.len() && t[k] == f[i];
                assert(s[k] == f[i]);
            }
        }
    }
}

/// Two runs of writes are the run of both.
pub proof fn lemma_write_twice(m: MapModel, a: Seq<(u32, u16)>, b: Seq<(u32, u16)>)
    ensures
        m.write(a).write(b) == m.write(a + b),
{
    lemma_replay_twice(m.tiles, a, b);
    if m.watch {
        assert(m.pending + a + b =~= m.pending + (a + b));
    }
}

/// Two runs of writes are the run of both.
pub proof fn lemma_replay_twice(tiles: Seq<u16>, a: Seq<(u32, u16)>, b: Seq<(u32, u16)>)
    ensures
        replay(replay(tiles, a), b) == replay(tiles, a + b),
    decreases b.len(),
{
    if b.len() == 0 {
        assert(a + b =~= a);
    } else {
        lemma_replay_twice(tiles, a, b.drop_last());
        assert((a + b).drop_last() =~= a + b.drop_last());
    }
}

/// Stamping keeps the ground of every tile.
pub proof fn lemma_stamp_water(tiles: Seq<u16>, owned: Seq<(u32, u16)>, ids: Seq<i32>)
    requires
        tiles.len() == OVERLAY_CELLS,
        forall|j: int| 0 <= j < owned.len() ==> valid_owned(#[trigger] owned[j], ids),
    ensures
        replay(tiles, stamp_writes(tiles, owned)).len() == tiles.len(),
        forall|i: int|
            0 <= i < tiles.len() ==> wet(#[trigger] replay(tiles, stamp_writes(tiles, owned))[i]) == wet(tiles[i]),
    decreases owned.len(),
{
    let w = stamp_writes(tiles, owned);
    if owned.len() > 0 {
        lemma_stamp_water(tiles, owned.drop_last(), ids);
        assert(w.drop_last() =~= stamp_writes(tiles, owned.drop_last()));
        assert(valid_owned(owned[owned.len() - 1], ids));
    }
}

/// What the tiles show and who stamped them does not depend on the rest.
proof fn lemma_still_tended(a: MapModel, b: MapModel)
    requires
        a.valid(),
        b.tiles == a.tiles,
        b.nodes == a.nodes,
        b.stampers == a.stampers,
    ensures
        forall|t: u32| #[trigger] b.tended(t),
{
    assert forall|t: u32| #[trigger] b.tended(t) by {
        assert(a.tended(t));
    }
}

/// A tile with a last stamper lies on the map and shows a resource of the type
/// and in the direction of that entity.
pub proof fn lemma_stamper_shows(m: MapModel, tile: u32)
    requires
        m.valid(),
        m.stampers.dom().contains(tile),
    ensures
        m.nodes.dom().contains(m.stampers[tile]),
        tile < OVERLAY_CELLS,
        is_resource_content(content(m.tiles[tile as int])),
        word_index(content(m.tiles[tile as int])) == m.nodes[m.stampers[tile]].index,
        word_direction(content(m.tiles[tile as int])) == m.nodes[m.stampers[tile]].direction,
{
    assert(m.tended(tile));
    let n = m.nodes[m.stampers[tile]];
    assert(valid_node(n, m.ids));
    let o = (tile, content(m.tiles[tile as int]));
    let j = choose|j: int| 0 <= j < n.owned.len() && n.owned[j] == o;
    assert(valid_owned(n.owned[j], m.ids));
}

/// A tile that shows no resource has no last stamper.
pub proof fn lemma_no_stamper(m: MapModel, tile: u32)
    requires
        m.valid(),
        tile < OVERLAY_CELLS,
        !is_resource_content(content(m.tiles[tile as int])),
    ensures
        !m.stampers.dom().contains(tile),
{
    if m.stampers.dom().contains(tile) {
        lemma_stamper_shows(m, tile);
    }
}

/// A write of a known content keeps the map valid, where it keeps what the
/// tile shows or where no resource stands before and after it.
pub proof fn lemma_write_is_valid(m: MapModel, writes: Seq<(u32, u16)>)
    requires
        m.valid(),
        writes.len() == 1,
        writes[0].0 < OVERLAY_CELLS,
        known_content(content(writes[0].1), m.ids, m.paving_ids),
        content(writes[0].1) == content(m.tiles[writes[0].0 as int]) || !m.stampers.dom().contains(writes[0].0)
            && !is_resource_content(content(writes[0].1)),
    ensures
        m.write(writes).valid(),
{
    lemma_write_is_sound(m, writes);
    assert(writes.drop_last() =~= Seq::<(u32, u16)>::empty());
    assert(replay(m.tiles, writes.drop_last()) == m.tiles);
    assert(replay(m.tiles, writes) == m.tiles.update(writes[0].0 as int, writes[0].1));
    assert forall|t: u32| #[trigger] m.write(writes).tended(t) by {
        assert(m.tended(t));
        if m.stampers.dom().contains(t) {
            lemma_stamper_shows(m, t);
        }
    }
}

/// The map stays valid when an entity that it does not hold is put on it.
pub proof fn lemma_placed_is_valid(m: MapModel, entity: u64, index: u16, direction: u8, loc: Option<(i32, i32)>)
    requires
        m.valid(),
        1 <= index < m.ids.len(),
        direction < 6,
        !m.nodes.dom().contains(entity),
    ensures
        m.placed(entity, index, direction, loc).valid(),
{
    let owned = m.stamp_of(loc, index, direction);
    let after = m.placed(entity, index, direction, loc);
    let cells = m.footprint(index);
    if let Some(origin) = loc {
        super::resource_laws::lemma_stamped(m, origin, index, direction, cells.len());
        assert forall|j: int| 0 <= j < owned.len() implies word_index((#[trigger] owned[j]).1) == index && word_direction(
            owned[j].1,
        ) == direction by {
            let k = choose|k: int|
                0 <= k < cells.len() && super::resource_laws::is_cell_content(m, origin, index, direction, k, owned[j]);
            super::resource_laws::lemma_resource_word(
                index,
                direction,
                super::resource_laws::cell_tile(m, origin, index, direction, k) == (origin.0 as int, origin.1 as int),
            );
        }
    }
    lemma_stamp_water(m.tiles, owned, m.ids);
    assert(valid_node(after.nodes[entity], m.ids));
    assert forall|i: int| 0 <= i < after.tiles.len() implies known_content(
        content(#[trigger] after.tiles[i]),
        m.ids,
        m.paving_ids,
    ) by {
        assert(known_content(content(m.tiles[i]), m.ids, m.paving_ids));
        if covers(owned, i as u32) {
            super::resource_laws::lemma_some_content_stands(m.tiles, owned, m.ids, i);
            let o = (i as u32, content(after.tiles[i]));
            let j = choose|j: int| 0 <= j < owned.len() && owned[j] == o;
            assert(valid_owned(owned[j], m.ids));
        } else {
            assert forall|j: int| 0 <= j < owned.len() implies (#[trigger] owned[j]).0 != i by {
                assert(owned[j].0 == i ==> covers(owned, i as u32));
            }
            super::resource_laws::lemma_untouched(m.tiles, owned, m.ids, i);
        }
    }
    assert forall|t: u32| #[trigger] after.tended(t) by {
        assert(m.tended(t));
        if covers(owned, t) {
            let j = choose|j: int| 0 <= j < owned.len() && (#[trigger] owned[j]).0 == t;
            assert(valid_owned(owned[j], m.ids));
            super::resource_laws::lemma_some_content_stands(m.tiles, owned, m.ids, t as int);
        } else {
            if m.stampers.dom().contains(t) {
                lemma_stamper_shows(m, t);
            }
            if t < OVERLAY_CELLS {
                assert forall|j: int| 0 <= j < owned.len() implies (#[trigger] owned[j]).0 != t by {
                    assert(owned[j].0 == t ==> covers(owned, t));
                }
                super::resource_laws::lemma_untouched(m.tiles, owned, m.ids, t as int);
            }
        }
    }
}

/// What an entity has standing are contents of its own, all on tiles that it
/// stamped last.
pub proof fn lemma_standing(m: MapModel, entity: u64)
    requires
        m.sound(),
        m.nodes.dom().contains(entity),
    ensures
        forall|o: (u32, u16)| #[trigger]
            m.standing(entity).contains(o) <==> m.nodes[entity].owned.contains(o) && m.is_stamper(o.0, entity),
        forall|j: int| 0 <= j < m.standing(entity).len() ==> valid_owned(#[trigger] m.standing(entity)[j], m.ids),
{
    let owned = m.nodes[entity].owned;
    let last = |o: (u32, u16)| m.is_stamper(o.0, entity);
    let mine = m.standing(entity);
    assert(valid_node(m.nodes[entity], m.ids));
    assert forall|j: int| 0 <= j < mine.len() implies valid_owned(#[trigger] mine[j], m.ids) && owned.contains(mine[j])
        && last(mine[j]) by {
        owned.lemma_filter_pred(last, j);
        assert(mine.contains(mine[j]));
        owned.lemma_filter_contains_rev(last, mine[j]);
        let k = choose|k: int| 0 <= k < owned.len() && owned[k] == mine[j];
        assert(valid_owned(owned[k], m.ids));
    }
    assert forall|o: (u32, u16)| #[trigger] mine.contains(o) <==> owned.contains(o) && m.is_stamper(o.0, entity) by {
        if owned.contains(o) && m.is_stamper(o.0, entity) {
            let k = choose|k: int| 0 <= k < owned.len() && owned[k] == o;
            owned.lemma_filter_contains(last, k);
        }
    }
}

/// The map stays valid when an entity is taken off it.
pub proof fn lemma_deleted_is_valid(m: MapModel, entity: u64)
    requires
        m.valid(),
    ensures
        m.deleted(entity).valid(),
{
    if m.nodes.dom().contains(entity) {
        let mine = m.standing(entity);
        let after = m.deleted(entity);
        lemma_standing(m, entity);
        super::resource_laws::law_unstamp(m.tiles, mine, m.ids);
        assert forall|i: int| 0 <= i < after.tiles.len() implies known_content(
            content(#[trigger] after.tiles[i]),
            m.ids,
            m.paving_ids,
        ) by {
            assert(known_content(content(m.tiles[i]), m.ids, m.paving_ids));
        }
        assert forall|t: u32| #[trigger] after.tended(t) by {
            assert(m.tended(t));
            if m.stampers.dom().contains(t) {
                lemma_stamper_shows(m, t);
            }
            if t < OVERLAY_CELLS {
                let o = (t, content(m.tiles[t as int]));
                assert(mine.contains(o) <==> m.nodes[entity].owned.contains(o) && m.is_stamper(t, entity));
                assert(after.tiles[t as int] == if mine.contains(o) {
                    on_ground_of(0, m.tiles[t as int])
                } else {
                    m.tiles[t as int]
                });
            }
        }
    }
}

/// A write of a known content keeps words and dictionaries together.
pub proof fn lemma_write_is_sound(m: MapModel, writes: Seq<(u32, u16)>)
    requires
        m.sound(),
        writes.len() == 1,
        writes[0].0 < OVERLAY_CELLS,
        known_content(content(writes[0].1), m.ids, m.paving_ids),
    ensures
        m.write(writes).sound(),
{
    assert(writes.drop_last() =~= Seq::<(u32, u16)>::empty());
    assert(replay(m.tiles, writes.drop_last()) == m.tiles);
    assert(replay(m.tiles, writes) == m.tiles.update(writes[0].0 as int, writes[0].1));
}

/// Longer dictionaries keep the map valid.
pub proof fn lemma_sighting_is_valid(m: MapModel, ids: Seq<i32>, paving_ids: Seq<i32>)
    requires
        m.valid(),
        valid_types(ids),
        valid_types(paving_ids),
        m.ids.len() <= ids.len(),
        m.paving_ids.len() <= paving_ids.len(),
    ensures
        (MapModel { ids, paving_ids, ..m }).valid(),
{
    assert forall|i: int| 0 <= i < m.tiles.len() implies known_content(content(#[trigger] m.tiles[i]), ids, paving_ids) by {
        assert(known_content(content(m.tiles[i]), m.ids, m.paving_ids));
    }
    assert forall|e: u64| #[trigger] m.nodes.dom().contains(e) implies valid_node(m.nodes[e], ids) by {
        assert(valid_node(m.nodes[e], m.ids));
        assert forall|j: int| 0 <= j < m.nodes[e].owned.len() implies valid_owned(#[trigger] m.nodes[e].owned[j], ids) by {
            assert(valid_owned(m.nodes[e].owned[j], m.ids));
        }
    }
    let after = MapModel { ids, paving_ids, ..m };
    assert forall|t: u32| #[trigger] after.tended(t) by {
        assert(m.tended(t));
    }
}

/// The index of a resource word is in the dictionary.
proof fn lemma_known_resource(word: u16, ids: Seq<i32>, paving_ids: Seq<i32>)
    requires
        valid_types(paving_ids),
        known_content(content(word), ids, paving_ids),
        content(word) != 0,
        !word_is_paving(word),
    ensures
        1 <= word_index(word) < ids.len(),
{
    assert(content(word) < 0x4000);
}

/// The index of a paving word is in the dictionary.
proof fn lemma_known_paving(word: u16, ids: Seq<i32>, paving_ids: Seq<i32>)
    requires
        valid_types(paving_ids),
        known_content(content(word), ids, paving_ids),
        word_is_paving(word),
    ensures
        1 <= word_index(word) < paving_ids.len(),
{
    assert(content(word) >= 0x4000);
    let i = choose|i: u16| 1 <= i < paving_ids.len() && content(word) == #[trigger] paving_word(i);
    assert(word_index(word) == i);
}

} // verus!
