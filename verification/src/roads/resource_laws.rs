//! What the operations of the resource map keep and undo.

use vstd::prelude::*;

use super::coords::{
    axial, corner_supers, footprint_tile, in_region, in_super_grid, is_corner, law_footprint_origin, nearest_third,
    odd_r, region_corner, super_of, REGION_SIDE, SUPER_SIDE,
};
use super::grid::{OVERLAY_CELLS, TERRAIN_CELLS};
use super::resource_map::{
    content, covers, ground_is_water, lemma_deleted_is_valid, lemma_no_stamper, lemma_placed_is_valid,
    lemma_sighting_is_valid, lemma_stamp_water, lemma_stamper_shows, lemma_standing, on_ground_of, paving_word, replay, resource_word, stamp_writes,
    super_is_water, tile_number, unstamp_writes, valid_node, valid_owned, wet, wet_step, wet_tile, wet_writes,
    word_direction, word_index, word_is_origin, word_is_paving, MapModel, ResourceTile,
};
use super::type_dict::{interned, is_slot, law_interning, lemma_type_slot, type_slot, valid_types};

verus! {

/// The tile numbers of a region name its tiles one to one.
pub proof fn lemma_tile_number(region: u16, x1: int, z1: int, x2: int, z2: int)
    requires
        tile_number(region, x1, z1) is Some,
        tile_number(region, x1, z1) == tile_number(region, x2, z2),
    ensures
        (x1, z1) == (x2, z2),
        0 <= tile_number(region, x1, z1)->0 < OVERLAY_CELLS,
{
}

/// Clearing: a tile changes just where one of the given contents still
/// stands, and then only its ground is left.
pub proof fn law_unstamp(tiles: Seq<u16>, owned: Seq<(u32, u16)>, ids: Seq<i32>)
    requires
        tiles.len() == OVERLAY_CELLS,
        forall|j: int| 0 <= j < owned.len() ==> valid_owned(#[trigger] owned[j], ids),
    ensures
        replay(tiles, unstamp_writes(tiles, owned)).len() == tiles.len(),
        forall|i: int|
            0 <= i < tiles.len() ==> #[trigger] replay(tiles, unstamp_writes(tiles, owned))[i] == if owned.contains(
                (i as u32, content(tiles[i])),
            ) {
                on_ground_of(0, tiles[i])
            } else {
                tiles[i]
            },
    decreases owned.len(),
{
    if owned.len() > 0 {
        let prev = owned.drop_last();
        let (a, w) = owned.last();
        assert forall|j: int| 0 <= j < prev.len() implies valid_owned(#[trigger] prev[j], ids) by {
            assert(prev[j] == owned[j]);
        }
        law_unstamp(tiles, prev, ids);
        assert(valid_owned(owned[owned.len() - 1], ids));
        let t1 = replay(tiles, unstamp_writes(tiles, prev));
        let writes = unstamp_writes(tiles, owned);
        let t2 = replay(tiles, writes);
        if content(t1[a as int]) == w {
            assert(writes.drop_last() =~= unstamp_writes(tiles, prev));
        }
        assert forall|i: int| 0 <= i < tiles.len() implies #[trigger] t2[i] == if owned.contains(
            (i as u32, content(tiles[i])),
        ) {
            on_ground_of(0, tiles[i])
        } else {
            tiles[i]
        } by {
            let c = (i as u32, content(tiles[i]));
            assert(owned =~= prev.push((a, w)));
            if owned.contains(c) && !prev.contains(c) {
                let k = choose|k: int| 0 <= k < owned.len() && owned[k] == c;
                if k < prev.len() {
                    assert(prev[k] == c);
                }
            }
            if prev.contains(c) {
                let k = choose|k: int| 0 <= k < prev.len() && prev[k] == c;
                assert(owned[k] == c);
                assert(valid_owned(owned[k], ids));
            }
            if c == (a, w) {
                assert(owned[owned.len() - 1] == c);
            }
            assert(t1[i] == if prev.contains(c) {
                on_ground_of(0, tiles[i])
            } else {
                tiles[i]
            });
        }
    }
}

/// Stamping: a tile that gets nothing stays.
pub proof fn lemma_untouched(tiles: Seq<u16>, owned: Seq<(u32, u16)>, ids: Seq<i32>, i: int)
    requires
        tiles.len() == OVERLAY_CELLS,
        0 <= i < tiles.len(),
        forall|j: int| 0 <= j < owned.len() ==> valid_owned(#[trigger] owned[j], ids),
        forall|j: int| 0 <= j < owned.len() ==> (#[trigger] owned[j]).0 != i,
    ensures
        replay(tiles, stamp_writes(tiles, owned))[i] == tiles[i],
    decreases owned.len(),
{
    if owned.len() > 0 {
        let prev = owned.drop_last();
        assert forall|j: int| 0 <= j < prev.len() implies valid_owned(#[trigger] prev[j], ids) && prev[j].0 != i by {
            assert(prev[j] == owned[j]);
        }
        lemma_untouched(tiles, prev, ids, i);
        lemma_stamp_water(tiles, prev, ids);
        assert(owned[owned.len() - 1].0 != i);
        let w = stamp_writes(tiles, owned);
        assert(w.drop_last() =~= stamp_writes(tiles, prev));
    }
}

/// The fields of a resource word.
pub proof fn lemma_resource_word(index: u16, direction: u8, is_origin: bool)
    requires
        1 <= index <= 1023,
        direction < 6,
    ensures
        1 <= resource_word(index, direction, is_origin) < 0x4000,
        word_index(resource_word(index, direction, is_origin)) == index,
        word_direction(resource_word(index, direction, is_origin)) == direction,
        word_is_origin(resource_word(index, direction, is_origin)) == is_origin,
{
}

/// The tile numbers of a region in region-local coordinates.
pub proof fn lemma_local_number(lx: int, lz: int)
    requires
        in_region(lx, lz),
    ensures
        0 <= lz * REGION_SIDE + lx < OVERLAY_CELLS,
        forall|x: int, z: int| #[trigger] in_region(x, z) && z * REGION_SIDE + x == lz * REGION_SIDE + lx ==> x == lx && z == lz,
{
    assert(REGION_SIDE == 7680);
}

/// The contents of a resource are valid and lie on the tiles of its cells.
pub proof fn lemma_stamped(m: MapModel, origin: (i32, i32), index: u16, direction: u8, n: nat)
    requires
        m.valid(),
        1 <= index < m.ids.len(),
        direction < 6,
        n <= m.footprint(index).len(),
    ensures
        m.stamped(origin, index, direction, n).len() <= n,
        forall|j: int|
            0 <= j < m.stamped(origin, index, direction, n).len() ==> {
                &&& valid_owned(#[trigger] m.stamped(origin, index, direction, n)[j], m.ids)
                &&& exists|k: int|
                    0 <= k < n && is_cell_content(m, origin, index, direction, k, m.stamped(
                        origin,
                        index,
                        direction,
                        n,
                    )[j])
            },
        forall|k: int|
            0 <= k < n && (m.footprint(index).len() > 1) && (#[trigger] cell_number(m, origin, index, direction, k)) is Some
                ==> m.stamped(origin, index, direction, n).contains(cell_content(m, origin, index, direction, k)),
    decreases n,
{
    if n > 0 {
        let p = (n - 1) as nat;
        lemma_stamped(m, origin, index, direction, p);
        let before = m.stamped(origin, index, direction, p);
        let after = m.stamped(origin, index, direction, n);
        assert forall|j: int| 0 <= j < after.len() implies {
            &&& valid_owned(#[trigger] after[j], m.ids)
            &&& exists|k: int| 0 <= k < n && is_cell_content(m, origin, index, direction, k, after[j])
        } by {
            if j < before.len() {
                assert(after[j] == before[j]);
                let k = choose|k: int| 0 <= k < p && is_cell_content(m, origin, index, direction, k, before[j]);
                assert(is_cell_content(m, origin, index, direction, k, after[j]));
            } else {
                assert(is_cell_content(m, origin, index, direction, n - 1, after[j]));
            }
        }
        assert forall|k: int|
            0 <= k < n && (m.footprint(index).len() > 1) && (#[trigger] cell_number(m, origin, index, direction, k)) is Some implies after.contains(
        cell_content(m, origin, index, direction, k)) by {
            if k < n - 1 {
                let c = cell_content(m, origin, index, direction, k);
                assert(before.contains(c));
                let j = choose|j: int| 0 <= j < before.len() && before[j] == c;
                assert(after[j] == c);
            } else {
                assert(after.last() == cell_content(m, origin, index, direction, k));
            }
        }
    }
}

/// World tile of a cell of a resource.
pub open spec fn cell_tile(m: MapModel, origin: (i32, i32), index: u16, direction: u8, k: int) -> (int, int) {
    footprint_tile(origin.0 as int, origin.1 as int, direction as int, m.footprint(index)[k])
}

/// Tile number of a cell of a resource, where the region holds it.
pub open spec fn cell_number(m: MapModel, origin: (i32, i32), index: u16, direction: u8, k: int) -> Option<int> {
    let at = cell_tile(m, origin, index, direction, k);
    tile_number(m.region, at.0, at.1)
}

/// What a cell of a resource writes.
pub open spec fn cell_content(m: MapModel, origin: (i32, i32), index: u16, direction: u8, k: int) -> (u32, u16) {
    (
        cell_number(m, origin, index, direction, k)->0 as u32,
        resource_word(
            index,
            direction,
            cell_tile(m, origin, index, direction, k) == (origin.0 as int, origin.1 as int),
        ),
    )
}

/// Whether a content is what a cell of a resource writes.
pub open spec fn is_cell_content(
    m: MapModel,
    origin: (i32, i32),
    index: u16,
    direction: u8,
    k: int,
    o: (u32, u16),
) -> bool {
    cell_number(m, origin, index, direction, k) is Some && o == cell_content(m, origin, index, direction, k)
}

/// A resource of a single hex does not take a tile that has content: all tiles
/// stay as they are.
pub proof fn law_single_hex_yields(m: MapModel, entity: u64, index: u16, direction: u8, origin: (i32, i32))
    requires
        m.valid(),
        m.footprint(index).len() == 1,
        cell_number(m, origin, index, direction, 0) matches Some(i) ==> content(m.tiles[i]) != 0,
    ensures
        m.placed(entity, index, direction, Some(origin)).tiles == m.tiles,
        m.placed(entity, index, direction, Some(origin)).nodes[entity].owned.len() == 0,
{
    reveal_with_fuel(MapModel::stamped, 2);
    let owned = m.stamp_of(Some(origin), index, direction);
    assert(owned.len() == 0);
    assert(stamp_writes(m.tiles, owned) =~= Seq::<(u32, u16)>::empty());
}

/// A resource of several hexes takes all tiles that it covers in the region
/// from whatever stood there. The other tiles stay, and so does the ground.
pub proof fn law_multi_hex_takes_its_tiles(m: MapModel, entity: u64, index: u16, direction: u8, origin: (i32, i32))
    requires
        m.valid(),
        1 <= index < m.ids.len(),
        direction < 6,
        m.footprint(index).len() > 1,
        m.footprint(index).no_duplicates(),
    ensures
        ({
            let after = m.placed(entity, index, direction, Some(origin));
            &&& forall|k: int|
                0 <= k < m.footprint(index).len() && (#[trigger] cell_number(m, origin, index, direction, k)) is Some ==> {
                    let i = cell_number(m, origin, index, direction, k)->0;
                    after.tiles[i] == on_ground_of(cell_content(m, origin, index, direction, k).1, m.tiles[i])
                }
            &&& forall|i: int|
                0 <= i < m.tiles.len() && (forall|k: int|
                    0 <= k < m.footprint(index).len() ==> (#[trigger] cell_number(m, origin, index, direction, k)) != Some(i))
                    ==> after.tiles[i] == m.tiles[i]
        }),
{
    let cells = m.footprint(index);
    let owned = m.stamp_of(Some(origin), index, direction);
    let after = m.placed(entity, index, direction, Some(origin));
    lemma_stamped(m, origin, index, direction, cells.len());
    assert forall|k: int|
        0 <= k < cells.len() && (#[trigger] cell_number(m, origin, index, direction, k)) is Some implies {
        let i = cell_number(m, origin, index, direction, k)->0;
        after.tiles[i] == on_ground_of(cell_content(m, origin, index, direction, k).1, m.tiles[i])
    } by {
        let c = cell_content(m, origin, index, direction, k);
        let i = cell_number(m, origin, index, direction, k)->0;
        assert(owned.contains(c));
        let t = cell_tile(m, origin, index, direction, k);
        lemma_tile_number(m.region, t.0, t.1, t.0, t.1);
        assert forall|j: int| 0 <= j < owned.len() && (#[trigger] owned[j]).0 == c.0 implies owned[j] == c by {
            let h = choose|h: int| 0 <= h < cells.len() && is_cell_content(m, origin, index, direction, h, owned[j]);
            let u = cell_tile(m, origin, index, direction, h);
            lemma_tile_number(m.region, u.0, u.1, u.0, u.1);
            lemma_tile_number(m.region, t.0, t.1, u.0, u.1);
        }
        lemma_last_wins(m.tiles, owned, m.ids, c);
    }
    assert forall|i: int|
        0 <= i < m.tiles.len() && (forall|k: int|
            0 <= k < cells.len() ==> (#[trigger] cell_number(m, origin, index, direction, k)) != Some(i)) implies after.tiles[i]
        == m.tiles[i] by {
        assert forall|j: int| 0 <= j < owned.len() implies (#[trigger] owned[j]).0 != i by {
            let h = choose|h: int| 0 <= h < cells.len() && is_cell_content(m, origin, index, direction, h, owned[j]);
            let u = cell_tile(m, origin, index, direction, h);
            lemma_tile_number(m.region, u.0, u.1, u.0, u.1);
            assert(cell_number(m, origin, index, direction, h) != Some(i));
        }
        lemma_untouched(m.tiles, owned, m.ids, i);
    }
}

/// Where every content for a tile is the same, it stands there afterwards.
proof fn lemma_last_wins(tiles: Seq<u16>, owned: Seq<(u32, u16)>, ids: Seq<i32>, c: (u32, u16))
    requires
        tiles.len() == OVERLAY_CELLS,
        forall|j: int| 0 <= j < owned.len() ==> valid_owned(#[trigger] owned[j], ids),
        owned.contains(c),
        forall|j: int| 0 <= j < owned.len() && (#[trigger] owned[j]).0 == c.0 ==> owned[j] == c,
    ensures
        replay(tiles, stamp_writes(tiles, owned))[c.0 as int] == on_ground_of(c.1, tiles[c.0 as int]),
    decreases owned.len(),
{
    let prev = owned.drop_last();
    let w = stamp_writes(tiles, owned);
    assert(w.drop_last() =~= stamp_writes(tiles, prev));
    assert(valid_owned(owned[owned.len() - 1], ids));
    assert forall|j: int| 0 <= j < prev.len() implies valid_owned(#[trigger] prev[j], ids) by {
        assert(prev[j] == owned[j]);
    }
    lemma_stamp_water(tiles, prev, ids);
    let j = choose|j: int| 0 <= j < owned.len() && owned[j] == c;
    assert(valid_owned(owned[j], ids));
    if owned.last().0 == c.0 {
        assert(owned[owned.len() - 1] == c);
    } else {
        assert(prev[j] == c);
        assert forall|j: int| 0 <= j < prev.len() && (#[trigger] prev[j]).0 == c.0 implies prev[j] == c by {
            assert(owned[j] == prev[j]);
        }
        lemma_last_wins(tiles, prev, ids, c);
    }
}

/// Taking an entity away changes just the tiles that it stamped last, and
/// leaves their ground. Every other tile keeps its word and its last stamper.
pub proof fn law_delete_clears_only_its_own(m: MapModel, entity: u64)
    requires
        m.valid(),
    ensures
        forall|i: int|
            0 <= i < m.tiles.len() ==> #[trigger] m.deleted(entity).tiles[i] == if m.is_stamper(i as u32, entity) {
                on_ground_of(0, m.tiles[i])
            } else {
                m.tiles[i]
            },
        forall|t: u32, f: u64|
            f != entity ==> #[trigger] m.deleted(entity).is_stamper(t, f) == m.is_stamper(t, f),
        !m.deleted(entity).nodes.dom().contains(entity),
{
    if m.nodes.dom().contains(entity) {
        lemma_standing(m, entity);
        law_unstamp(m.tiles, m.standing(entity), m.ids);
    }
    assert forall|i: int| 0 <= i < m.tiles.len() implies #[trigger] m.deleted(entity).tiles[i] == if m.is_stamper(
        i as u32,
        entity,
    ) {
        on_ground_of(0, m.tiles[i])
    } else {
        m.tiles[i]
    } by {
        assert(m.tended(i as u32));
        if m.nodes.dom().contains(entity) {
            let o = (i as u32, content(m.tiles[i]));
            assert(m.standing(entity).contains(o) <==> m.nodes[entity].owned.contains(o) && m.is_stamper(o.0, entity));
        }
    }
}

/// An entity that leaves the map or moves on it punches no hole into another
/// one: a tile that the other one stamped last keeps its word and its last
/// stamper, unless the entity stamps it anew at its new place. Both may have
/// one type and one direction.
pub proof fn law_later_stamps_survive(
    m: MapModel,
    entity: u64,
    other: u64,
    tile: u32,
    resource_id: i32,
    direction: int,
    loc: Option<(i32, i32)>,
)
    requires
        m.valid(),
        other != entity,
        m.is_stamper(tile, other),
    ensures
        m.deleted(entity).tiles[tile as int] == m.tiles[tile as int],
        m.deleted(entity).is_stamper(tile, other),
        ({
            let after = m.relocated(entity, loc);
            after.nodes.dom().contains(entity) && covers(after.nodes[entity].owned, tile) || after.tiles[tile as int]
                == m.tiles[tile as int] && after.is_stamper(tile, other)
        }),
        ({
            let after = m.upserted(entity, resource_id, direction, loc);
            after.nodes.dom().contains(entity) && covers(after.nodes[entity].owned, tile) || after.tiles[tile as int]
                == m.tiles[tile as int] && after.is_stamper(tile, other)
        }),
{
    lemma_stamper_shows(m, tile);
    law_delete_clears_only_its_own(m, entity);
    lemma_deleted_is_valid(m, entity);
    assert(m.deleted(entity).is_stamper(tile, other) == m.is_stamper(tile, other));
    if m.nodes.dom().contains(entity) {
        let n = m.nodes[entity];
        assert(valid_node(n, m.ids));
        lemma_place_spares(m.deleted(entity), entity, n.index, n.direction, loc, tile);
    }
    law_interning(m.ids, resource_id);
    let seen = m.sighted(resource_id);
    lemma_sighting_is_valid(m, seen.ids, m.paving_ids);
    assert(seen =~= (MapModel { ids: seen.ids, paving_ids: m.paving_ids, ..m }));
    law_delete_clears_only_its_own(seen, entity);
    lemma_deleted_is_valid(seen, entity);
    assert(seen.is_stamper(tile, other));
    assert(seen.deleted(entity).is_stamper(tile, other) == seen.is_stamper(tile, other));
    if let Some(index) = type_slot(seen.ids, resource_id) {
        let c = choose|c: int| super::type_dict::is_slot(seen.ids, resource_id, c);
        assert(super::type_dict::is_slot(seen.ids, resource_id, c));
        lemma_place_spares(seen.deleted(entity), entity, index, (direction % 6) as u8, loc, tile);
    }
}

/// Putting an entity on the map keeps a tile that it does not stamp.
proof fn lemma_place_spares(m: MapModel, entity: u64, index: u16, direction: u8, loc: Option<(i32, i32)>, tile: u32)
    requires
        m.valid(),
        1 <= index < m.ids.len(),
        direction < 6,
        tile < OVERLAY_CELLS,
    ensures
        ({
            let after = m.placed(entity, index, direction, loc);
            covers(after.nodes[entity].owned, tile) || after.tiles[tile as int] == m.tiles[tile as int] && (forall|f: u64|
                #[trigger] after.is_stamper(tile, f) == m.is_stamper(tile, f))
        }),
{
    let owned = m.stamp_of(loc, index, direction);
    if let Some(origin) = loc {
        lemma_stamped_valid(m, origin, index, direction, m.footprint(index).len());
    }
    if !covers(owned, tile) {
        assert forall|j: int| 0 <= j < owned.len() implies (#[trigger] owned[j]).0 != tile by {
            assert(owned[j].0 == tile ==> covers(owned, tile));
        }
        lemma_untouched(m.tiles, owned, m.ids, tile as int);
    }
}

/// A tile shows a resource just if it has a last stamper: that entity is on
/// the map, and the tile shows its type and its direction.
pub proof fn law_tiles_show_their_last_stamper(m: MapModel, tile: u32)
    requires
        m.valid(),
        tile < OVERLAY_CELLS,
    ensures
        m.stampers.dom().contains(tile) <==> content(m.tiles[tile as int]) != 0 && !word_is_paving(m.tiles[tile as int]),
        m.stampers.dom().contains(tile) ==> {
            &&& m.nodes.dom().contains(m.stampers[tile])
            &&& word_index(m.tiles[tile as int]) == m.nodes[m.stampers[tile]].index
            &&& word_direction(m.tiles[tile as int]) == m.nodes[m.stampers[tile]].direction
        },
{
    let word = m.tiles[tile as int];
    assert(m.tended(tile));
    if m.stampers.dom().contains(tile) {
        lemma_stamper_shows(m, tile);
        lemma_ground_keeps_fields(content(word), word);
        assert(on_ground_of(content(word), word) == word);
    } else if content(word) != 0 {
        assert(content(word) >= 0x4000);
    }
}

/// The ground of every tile.
pub open spec fn same_ground(a: MapModel, b: MapModel) -> bool {
    &&& a.tiles.len() == b.tiles.len()
    &&& forall|i: int| 0 <= i < a.tiles.len() ==> wet(#[trigger] a.tiles[i]) == wet(b.tiles[i])
}

/// Taking an entity away keeps the ground.
proof fn lemma_delete_ground(m: MapModel, entity: u64)
    requires
        m.valid(),
    ensures
        same_ground(m.deleted(entity), m),
        m.deleted(entity).tiles.len() == OVERLAY_CELLS,
        m.deleted(entity).ids == m.ids,
        m.deleted(entity).footprints == m.footprints,
        m.deleted(entity).region == m.region,
{
    if m.nodes.dom().contains(entity) {
        lemma_standing(m, entity);
        law_unstamp(m.tiles, m.standing(entity), m.ids);
    }
}

/// Contents of a resource are valid on any map with the same dictionary.
proof fn lemma_stamped_valid(m: MapModel, origin: (i32, i32), index: u16, direction: u8, n: nat)
    requires
        m.tiles.len() == OVERLAY_CELLS,
        valid_types(m.ids),
        1 <= index < m.ids.len(),
        direction < 6,
    ensures
        forall|j: int|
            0 <= j < m.stamped(origin, index, direction, n).len() ==> valid_owned(
                #[trigger] m.stamped(origin, index, direction, n)[j],
                m.ids,
            ),
    decreases n,
{
    if n > 0 {
        let before = m.stamped(origin, index, direction, (n - 1) as nat);
        let after = m.stamped(origin, index, direction, n);
        lemma_stamped_valid(m, origin, index, direction, (n - 1) as nat);
        let at = cell_tile(m, origin, index, direction, n - 1);
        lemma_resource_word(index, direction, at == (origin.0 as int, origin.1 as int));
        if tile_number(m.region, at.0, at.1) is Some {
            lemma_tile_number(m.region, at.0, at.1, at.0, at.1);
        }
        assert forall|j: int| 0 <= j < after.len() implies valid_owned(#[trigger] after[j], m.ids) by {
            if j < before.len() {
                assert(after[j] == before[j]);
            }
        }
    }
}

/// Putting an entity on the map keeps the ground.
proof fn lemma_place_ground(m: MapModel, entity: u64, index: u16, direction: u8, loc: Option<(i32, i32)>)
    requires
        m.tiles.len() == OVERLAY_CELLS,
        valid_types(m.ids),
        1 <= index < m.ids.len(),
        direction < 6,
    ensures
        same_ground(m.placed(entity, index, direction, loc), m),
{
    let owned = m.stamp_of(loc, index, direction);
    if let Some(origin) = loc {
        lemma_stamped_valid(m, origin, index, direction, m.footprint(index).len());
    }
    lemma_stamp_water(m.tiles, owned, m.ids);
}

/// Every operation on resources and pavings keeps the water flag of every
/// tile.
pub proof fn law_writes_keep_the_ground(
    m: MapModel,
    entity: u64,
    type_id: i32,
    direction: int,
    loc: Option<(i32, i32)>,
    x: int,
    z: int,
)
    requires
        m.valid(),
    ensures
        same_ground(m.upserted(entity, type_id, direction, loc), m),
        same_ground(m.relocated(entity, loc), m),
        same_ground(m.deleted(entity), m),
        same_ground(m.paved(x, z, type_id), m),
        same_ground(m.unpaved(x, z, type_id), m),
{
    law_interning(m.ids, type_id);
    let seen = m.sighted(type_id);
    lemma_sighting_is_valid(m, seen.ids, m.paving_ids);
    assert(seen =~= (MapModel { ids: seen.ids, paving_ids: m.paving_ids, ..m }));
    lemma_delete_ground(seen, entity);
    assert(same_ground(seen.deleted(entity), m));
    if let Some(index) = type_slot(seen.ids, type_id) {
        let d = (direction % 6) as u8;
        let c = choose|c: int| super::type_dict::is_slot(seen.ids, type_id, c);
        assert(super::type_dict::is_slot(seen.ids, type_id, c));
        lemma_place_ground(seen.deleted(entity), entity, index, d, loc);
    }
    lemma_delete_ground(m, entity);
    if m.nodes.dom().contains(entity) {
        let n = m.nodes[entity];
        assert(valid_node(n, m.ids));
        lemma_place_ground(m.deleted(entity), entity, n.index, n.direction, loc);
    }
    law_interning(m.paving_ids, type_id);
    if let Some(i) = tile_number(m.region, x, z) {
        lemma_tile_number(m.region, x, z, x, z);
        let paved = MapModel { paving_ids: interned(m.paving_ids, type_id), ..m };
        if let Some(index) = type_slot(paved.paving_ids, type_id) {
            let c = choose|c: int| super::type_dict::is_slot(paved.paving_ids, type_id, c);
            assert(super::type_dict::is_slot(paved.paving_ids, type_id, c));
            lemma_one_write(m.tiles, (i as u32, on_ground_of(paving_word(index), m.tiles[i])));
        }
        lemma_one_write(m.tiles, (i as u32, on_ground_of(0, m.tiles[i])));
    }
}

/// A single write.
proof fn lemma_one_write(tiles: Seq<u16>, w: (u32, u16))
    ensures
        replay(tiles, seq![w]) == tiles.update(w.0 as int, w.1),
{
    let one = seq![w];
    assert(one.drop_last() =~= Seq::<(u32, u16)>::empty());
    assert(replay(tiles, one.drop_last()) == tiles);
}

/// A paving changes a tile only where nothing stands, and taking a paving away
/// changes a tile only where a paving of that type stands.
pub proof fn law_paving_never_erases(m: MapModel, x: int, z: int, paving_type_id: i32)
    requires
        m.valid(),
    ensures
        forall|i: int|
            0 <= i < m.tiles.len() && #[trigger] m.paved(x, z, paving_type_id).tiles[i] != m.tiles[i] ==> content(
                m.tiles[i],
            ) == 0 && tile_number(m.region, x, z) == Some(i),
        forall|i: int|
            0 <= i < m.tiles.len() && #[trigger] m.unpaved(x, z, paving_type_id).tiles[i] != m.tiles[i] ==> {
                &&& tile_number(m.region, x, z) == Some(i)
                &&& type_slot(m.paving_ids, paving_type_id) is Some
                &&& content(m.tiles[i]) == paving_word(type_slot(m.paving_ids, paving_type_id)->0)
            },
        m.paved(x, z, paving_type_id).nodes == m.nodes,
        m.unpaved(x, z, paving_type_id).nodes == m.nodes,
{
    if let Some(i) = tile_number(m.region, x, z) {
        lemma_tile_number(m.region, x, z, x, z);
        let paved = MapModel { paving_ids: interned(m.paving_ids, paving_type_id), ..m };
        if let Some(index) = type_slot(paved.paving_ids, paving_type_id) {
            lemma_one_write(m.tiles, (i as u32, on_ground_of(paving_word(index), m.tiles[i])));
        }
        lemma_one_write(m.tiles, (i as u32, on_ground_of(0, m.tiles[i])));
    }
}

/// An entity whose tiles were all without content leaves no trace on the
/// tiles once it is taken away.
pub proof fn law_delete_undoes_place(m: MapModel, entity: u64, index: u16, direction: u8, loc: Option<(i32, i32)>)
    requires
        m.valid(),
        1 <= index < m.ids.len(),
        direction < 6,
        !m.nodes.dom().contains(entity),
        forall|j: int|
            0 <= j < m.stamp_of(loc, index, direction).len() ==> content(
                m.tiles[(#[trigger] m.stamp_of(loc, index, direction)[j]).0 as int],
            ) == 0,
    ensures
        m.placed(entity, index, direction, loc).deleted(entity).tiles == m.tiles,
        m.placed(entity, index, direction, loc).deleted(entity).nodes == m.nodes,
        m.placed(entity, index, direction, loc).deleted(entity).stampers == m.stampers,
{
    let owned = m.stamp_of(loc, index, direction);
    let there = m.placed(entity, index, direction, loc);
    if let Some(origin) = loc {
        lemma_stamped_valid(m, origin, index, direction, m.footprint(index).len());
    }
    lemma_stamp_water(m.tiles, owned, m.ids);
    lemma_placed_is_valid(m, entity, index, direction, loc);
    law_delete_clears_only_its_own(there, entity);
    let gone = there.deleted(entity);
    assert(gone.tiles.len() == m.tiles.len()) by {
        lemma_delete_ground(there, entity);
    }
    assert forall|i: int| 0 <= i < m.tiles.len() implies gone.tiles[i] == m.tiles[i] by {
        assert(m.tended(i as u32));
        if covers(owned, i as u32) {
            let j = choose|j: int| 0 <= j < owned.len() && (#[trigger] owned[j]).0 == i as u32;
            assert(content(m.tiles[owned[j].0 as int]) == 0);
            assert(wet(there.tiles[i]) == wet(m.tiles[i]));
            assert(there.is_stamper(i as u32, entity));
        } else {
            assert forall|j: int| 0 <= j < owned.len() implies (#[trigger] owned[j]).0 != i by {
                assert(owned[j].0 == i ==> covers(owned, i as u32));
            }
            lemma_untouched(m.tiles, owned, m.ids, i);
        }
    }
    assert(gone.tiles =~= m.tiles);
    assert forall|t: u32| gone.stampers.dom().contains(t) <==> m.stampers.dom().contains(t) by {
        assert(m.tended(t));
        if covers(owned, t) {
            let j = choose|j: int| 0 <= j < owned.len() && (#[trigger] owned[j]).0 == t;
            assert(valid_owned(owned[j], m.ids));
            assert(content(m.tiles[owned[j].0 as int]) == 0);
            lemma_no_stamper(m, t);
        }
    }
    assert(gone.stampers =~= m.stampers);
    assert(gone.nodes =~= m.nodes);
}

/// A tile that gets contents shows one of them afterwards.
pub proof fn lemma_some_content_stands(tiles: Seq<u16>, owned: Seq<(u32, u16)>, ids: Seq<i32>, i: int)
    requires
        tiles.len() == OVERLAY_CELLS,
        0 <= i < tiles.len(),
        forall|j: int| 0 <= j < owned.len() ==> valid_owned(#[trigger] owned[j], ids),
        exists|j: int| 0 <= j < owned.len() && (#[trigger] owned[j]).0 == i,
    ensures
        owned.contains((i as u32, content(replay(tiles, stamp_writes(tiles, owned))[i]))),
    decreases owned.len(),
{
    let prev = owned.drop_last();
    let w = stamp_writes(tiles, owned);
    assert(w.drop_last() =~= stamp_writes(tiles, prev));
    assert(valid_owned(owned[owned.len() - 1], ids));
    assert forall|j: int| 0 <= j < prev.len() implies valid_owned(#[trigger] prev[j], ids) by {
        assert(prev[j] == owned[j]);
    }
    lemma_stamp_water(tiles, prev, ids);
    if owned.last().0 == i {
        assert(owned[owned.len() - 1] == (i as u32, content(replay(tiles, w)[i])));
    } else {
        let j = choose|j: int| 0 <= j < owned.len() && (#[trigger] owned[j]).0 == i;
        assert(prev[j].0 == i);
        lemma_some_content_stands(tiles, prev, ids, i);
        let c = (i as u32, content(replay(tiles, stamp_writes(tiles, prev))[i]));
        let k = choose|k: int| 0 <= k < prev.len() && prev[k] == c;
        assert(owned[k] == c);
    }
}

/// The same row a second time changes nothing.
pub proof fn law_upsert_is_idempotent(
    m: MapModel,
    entity: u64,
    resource_id: i32,
    direction: int,
    loc: Option<(i32, i32)>,
)
    requires
        m.valid(),
    ensures
        m.upserted(entity, resource_id, direction, loc).upserted(entity, resource_id, direction, loc) == m.upserted(
            entity,
            resource_id,
            direction,
            loc,
        ),
{
    law_interning(m.ids, resource_id);
    let once = m.upserted(entity, resource_id, direction, loc);
    assert(once.ids == interned(m.ids, resource_id));
    assert(once.sighted(resource_id) == once);
}

/// What the watch records brings a copy of the old tiles up to date.
pub proof fn law_recorded_writes_replay(m: MapModel, writes: Seq<(u32, u16)>)
    requires
        m.watch,
    ensures
        m.write(writes).pending.len() >= m.pending.len(),
        replay(m.tiles, m.write(writes).pending.skip(m.pending.len() as int)) == m.write(writes).tiles,
{
    assert(m.write(writes).pending.skip(m.pending.len() as int) =~= writes);
}

/// Without the watch nothing is recorded.
pub proof fn law_nothing_recorded_without_watch(m: MapModel, writes: Seq<(u32, u16)>)
    requires
        !m.watch,
    ensures
        m.write(writes).pending == m.pending,
{
}

/// Whether a step of [`wet_writes`] comes before the step `(s, d)`.
pub open spec fn earlier(a: nat, b: nat, s: nat, d: nat) -> bool {
    b < 13 && (a < s || (a == s && b < d))
}

/// Whether the step `(a, b)` wets the tile with number `i`.
pub open spec fn wets(terrain: Seq<u64>, a: nat, b: nat, i: int) -> bool {
    let sx = a as int % SUPER_SIDE as int;
    let sz = a as int / SUPER_SIDE as int;
    let at = wet_tile(sx, sz, b as int);
    super_is_water(terrain, sx, sz) && in_region(at.0, at.1) && i == at.1 * REGION_SIDE + at.0
}

/// Whether a tile is wet after some steps, and how its word changed.
proof fn lemma_wet_writes(tiles: Seq<u16>, terrain: Seq<u64>, s: nat, d: nat, i: int)
    requires
        tiles.len() == OVERLAY_CELLS,
        d <= 13,
        0 <= i < tiles.len(),
    ensures
        replay(tiles, wet_writes(tiles, terrain, s, d)).len() == tiles.len(),
        content(replay(tiles, wet_writes(tiles, terrain, s, d))[i]) == content(tiles[i]),
        wet(replay(tiles, wet_writes(tiles, terrain, s, d))[i]) <==> wet(tiles[i]) || exists|a: nat, b: nat| #[trigger]
            earlier(a, b, s, d) && wets(terrain, a, b, i),
    decreases s, d,
{
    if d == 0 {
        if s > 0 {
            lemma_wet_writes(tiles, terrain, (s - 1) as nat, 13, i);
            assert forall|a: nat, b: nat| #[trigger] earlier(a, b, s, 0) <==> earlier(a, b, (s - 1) as nat, 13) by {
            }
            if exists|a: nat, b: nat| #[trigger] earlier(a, b, (s - 1) as nat, 13) && wets(terrain, a, b, i) {
                let (a, b) = choose|a: nat, b: nat| #[trigger]
                    earlier(a, b, (s - 1) as nat, 13) && wets(terrain, a, b, i);
                assert(earlier(a, b, s, 0));
            }
        }
    } else {
        let p = (d - 1) as nat;
        lemma_wet_writes(tiles, terrain, s, p, i);
        let before = wet_writes(tiles, terrain, s, p);
        let after = wet_writes(tiles, terrain, s, d);
        let t1 = replay(tiles, before);
        let t2 = replay(tiles, after);
        let sx = s as int % SUPER_SIDE as int;
        let sz = s as int / SUPER_SIDE as int;
        let at = wet_tile(sx, sz, d - 1);
        let n = at.1 * REGION_SIDE + at.0;
        if in_region(at.0, at.1) {
            lemma_wet_writes(tiles, terrain, s, p, n);
        }
        if after != before {
            assert(after.drop_last() =~= before);
            assert(t2 == t1.update(n, (t1[n] + 0x8000) as u16));
        }
        if exists|a: nat, b: nat| #[trigger] earlier(a, b, s, p) && wets(terrain, a, b, i) {
            let (a, b) = choose|a: nat, b: nat| #[trigger] earlier(a, b, s, p) && wets(terrain, a, b, i);
            assert(earlier(a, b, s, d));
        }
        if wets(terrain, s, p, i) {
            assert(earlier(s, p, s, d));
            assert(i == n);
        }
        if exists|a: nat, b: nat| #[trigger] earlier(a, b, s, d) && wets(terrain, a, b, i) {
            let (a, b) = choose|a: nat, b: nat| #[trigger] earlier(a, b, s, d) && wets(terrain, a, b, i);
            assert(earlier(a, b, s, p) || (a == s && b == p));
        }
    }
}

/// Off the region no super hex lies under water.
pub proof fn lemma_outside_is_land(terrain: Seq<u64>, sx: int, sz: int)
    requires
        !in_super_grid(sx, sz),
    ensures
        !super_is_water(terrain, sx, sz),
{
}

/// A super hex under water wets just the tiles that it owns or that it is one
/// of the three super hexes of.
proof fn lemma_wet_tile_geometry(sx: int, sz: int, d: int)
    requires
        0 <= d < 13,
    ensures
        ({
            let at = wet_tile(sx, sz, d);
            if is_corner(at.0, at.1) {
                ||| corner_supers(at.0, at.1)[0] == (sx, sz)
                ||| corner_supers(at.0, at.1)[1] == (sx, sz)
                ||| corner_supers(at.0, at.1)[2] == (sx, sz)
            } else {
                super_of(at.0, at.1) == (sx, sz)
            }
        }),
{
    let (q, r) = axial(sx, sz);
    let at = wet_tile(sx, sz, d);
    let step = wet_step(d);
    assert(axial(at.0, at.1) == (3 * q + step.0, 3 * r + step.1));
    assert(odd_r(q, r) == (sx, sz));
}

/// The step from the middle of a super hex to a tile that it owns.
proof fn lemma_owner_step(lx: int, lz: int) -> (d: nat)
    requires
        !is_corner(lx, lz),
    ensures
        d < 13,
        wet_tile(super_of(lx, lz).0, super_of(lx, lz).1, d as int) == (lx, lz),
{
    let (q, r) = axial(lx, lz);
    let s = super_of(lx, lz);
    let (sq, sr) = (nearest_third(q), nearest_third(r));
    assert(axial(s.0, s.1) == (sq, sr));
    let (dq, dr) = (q - 3 * sq, r - 3 * sr);
    assert(-1 <= dq <= 1 && -1 <= dr <= 1);
    assert(odd_r(q, r) == (lx, lz));
    if dq == 0 && dr == 0 {
        0
    } else if dq == 1 && dr == 0 {
        1
    } else if dq == -1 && dr == 0 {
        2
    } else if dq == 0 && dr == 1 {
        3
    } else if dq == 0 && dr == -1 {
        4
    } else if dq == 1 && dr == -1 {
        5
    } else {
        6
    }
}

/// The step from the middle of a super hex to one of its corner tiles.
proof fn lemma_corner_step(lx: int, lz: int, i: int) -> (d: nat)
    requires
        is_corner(lx, lz),
        0 <= i < 3,
    ensures
        d < 13,
        wet_tile(corner_supers(lx, lz)[i].0, corner_supers(lx, lz)[i].1, d as int) == (lx, lz),
{
    let (q, r) = axial(lx, lz);
    let (sq, sr) = (nearest_third(q), nearest_third(r));
    assert(odd_r(q, r) == (lx, lz));
    if q % 3 == 1 {
        assert(q == 3 * sq + 1 && r == 3 * sr + 1);
        if i == 0 {
            8
        } else if i == 1 {
            9
        } else {
            10
        }
    } else {
        assert(q == 3 * sq - 1 && r == 3 * sr - 1);
        if i == 0 {
            7
        } else if i == 1 {
            11
        } else {
            12
        }
    }
}

/// After the flood a tile is wet just if it was, or if its ground lies under
/// water: its super hex does or, for a corner tile, any of its three. Contents
/// stay.
pub proof fn law_flood_follows_the_terrain(m: MapModel, terrain: Seq<u64>, lx: int, lz: int)
    requires
        m.valid(),
        in_region(lx, lz),
    ensures
        wet(m.flooded(terrain).word(lx, lz)) <==> wet(m.word(lx, lz)) || ground_is_water(terrain, lx, lz),
        content(m.flooded(terrain).word(lx, lz)) == content(m.word(lx, lz)),
{
    let i = lz * REGION_SIDE + lx;
    let s = TERRAIN_CELLS as nat;
    lemma_local_number(lx, lz);
    lemma_wet_writes(m.tiles, terrain, s, 0, i);
    if exists|a: nat, b: nat| #[trigger] earlier(a, b, s, 0) && wets(terrain, a, b, i) {
        let (a, b) = choose|a: nat, b: nat| #[trigger] earlier(a, b, s, 0) && wets(terrain, a, b, i);
        let sx = a as int % SUPER_SIDE as int;
        let sz = a as int / SUPER_SIDE as int;
        let at = wet_tile(sx, sz, b as int);
        assert(at.1 * REGION_SIDE + at.0 == i);
        assert(at == (lx, lz));
        lemma_wet_tile_geometry(sx, sz, b as int);
        if is_corner(lx, lz) {
            assert(super_is_water(terrain, corner_supers(lx, lz)[0].0, corner_supers(lx, lz)[0].1) || super_is_water(
                terrain,
                corner_supers(lx, lz)[1].0,
                corner_supers(lx, lz)[1].1,
            ) || super_is_water(terrain, corner_supers(lx, lz)[2].0, corner_supers(lx, lz)[2].1));
        }
        assert(ground_is_water(terrain, lx, lz));
    }
    if ground_is_water(terrain, lx, lz) {
        if is_corner(lx, lz) {
            let k = choose|k: int|
                0 <= k < 3 && super_is_water(
                    terrain,
                    (#[trigger] corner_supers(lx, lz)[k]).0,
                    corner_supers(lx, lz)[k].1,
                );
            let d = lemma_corner_step(lx, lz, k);
            let su = corner_supers(lx, lz)[k];
            lemma_reached(terrain, su.0, su.1, d, lx, lz);
        } else {
            let d = lemma_owner_step(lx, lz);
            let su = super_of(lx, lz);
            lemma_reached(terrain, su.0, su.1, d, lx, lz);
        }
    }
}

/// A super hex under water is one of the steps.
proof fn lemma_reached(terrain: Seq<u64>, sx: int, sz: int, d: nat, lx: int, lz: int)
    requires
        super_is_water(terrain, sx, sz),
        d < 13,
        wet_tile(sx, sz, d as int) == (lx, lz),
        in_region(lx, lz),
    ensures
        exists|a: nat, b: nat| #[trigger]
            earlier(a, b, TERRAIN_CELLS as nat, 0) && wets(terrain, a, b, lz * REGION_SIDE + lx),
{
    if !in_super_grid(sx, sz) {
        lemma_outside_is_land(terrain, sx, sz);
    }
    let a = (sz * SUPER_SIDE + sx) as nat;
    assert(a as int % SUPER_SIDE as int == sx);
    assert(a as int / SUPER_SIDE as int == sz);
    assert(earlier(a, d, TERRAIN_CELLS as nat, 0));
    assert(wets(terrain, a, d, lz * REGION_SIDE + lx));
}

/// A flood on tiles that are wet where it would wet them writes nothing.
proof fn lemma_no_writes(tiles: Seq<u16>, terrain: Seq<u64>, s: nat, d: nat)
    requires
        tiles.len() == OVERLAY_CELLS,
        d <= 13,
        forall|a: nat, b: nat, i: int| #[trigger] earlier(a, b, s, d) && #[trigger] wets(terrain, a, b, i) ==> wet(tiles[i]),
    ensures
        wet_writes(tiles, terrain, s, d) == Seq::<(u32, u16)>::empty(),
    decreases s, d,
{
    if d == 0 {
        if s > 0 {
            assert forall|a: nat, b: nat, i: int|
                #[trigger] earlier(a, b, (s - 1) as nat, 13) && #[trigger] wets(terrain, a, b, i) implies wet(tiles[i]) by {
                assert(earlier(a, b, s, 0));
            }
            lemma_no_writes(tiles, terrain, (s - 1) as nat, 13);
        }
    } else {
        let p = (d - 1) as nat;
        assert forall|a: nat, b: nat, i: int|
            #[trigger] earlier(a, b, s, p) && #[trigger] wets(terrain, a, b, i) implies wet(tiles[i]) by {
            assert(earlier(a, b, s, d));
        }
        lemma_no_writes(tiles, terrain, s, p);
        let sx = s as int % SUPER_SIDE as int;
        let sz = s as int / SUPER_SIDE as int;
        let at = wet_tile(sx, sz, d - 1);
        let n = at.1 * REGION_SIDE + at.0;
        assert(earlier(s, p, s, d));
        if super_is_water(terrain, sx, sz) && in_region(at.0, at.1) {
            assert(wets(terrain, s, p, n));
        }
    }
}

/// A second flood from the same terrain writes nothing.
pub proof fn law_second_flood_writes_nothing(m: MapModel, terrain: Seq<u64>)
    requires
        m.valid(),
    ensures
        m.flooded(terrain).flooded(terrain) == m.flooded(terrain),
{
    let f = m.flooded(terrain);
    let s = TERRAIN_CELLS as nat;
    lemma_wet_writes(m.tiles, terrain, s, 0, 0);
    assert forall|a: nat, b: nat, i: int|
        #[trigger] earlier(a, b, s, 0) && #[trigger] wets(terrain, a, b, i) implies wet(f.tiles[i]) by {
        lemma_wet_writes(m.tiles, terrain, s, 0, i);
    }
    lemma_no_writes(f.tiles, terrain, s, 0);
    assert(f.pending + Seq::<(u32, u16)>::empty() =~= f.pending);
    assert(f.write(Seq::empty()) =~= f);
}

/// The water flag is apart from the other fields of a word.
pub proof fn lemma_ground_keeps_fields(c: u16, word: u16)
    requires
        c < 0x4000,
    ensures
        content(on_ground_of(c, word)) == c,
        word_index(on_ground_of(c, word)) == word_index(c),
        word_direction(on_ground_of(c, word)) == word_direction(c),
        word_is_origin(on_ground_of(c, word)) == word_is_origin(c),
        !word_is_paving(on_ground_of(c, word)),
{
}

/// A resource of several hexes shows its type, its direction and its origin
/// on the tiles that it covers.
pub proof fn law_multi_hex_is_shown(
    m: MapModel,
    entity: u64,
    index: u16,
    direction: u8,
    origin: (i32, i32),
    k: int,
    lx: int,
    lz: int,
)
    requires
        m.valid(),
        1 <= index < m.ids.len(),
        m.ids[index as int] != 0,
        direction < 6,
        m.footprint(index).len() > 1,
        m.footprint(index).no_duplicates(),
        0 <= k < m.footprint(index).len(),
        in_region(lx, lz),
        cell_tile(m, origin, index, direction, k) == (
            region_corner(m.region as int).0 + lx,
            region_corner(m.region as int).1 + lz,
        ),
    ensures
        m.placed(entity, index, direction, Some(origin)).resource_on(lx, lz) == Some(
            ResourceTile {
                resource_id: m.ids[index as int],
                direction,
                is_origin: cell_tile(m, origin, index, direction, k) == (origin.0 as int, origin.1 as int),
            },
        ),
{
    law_multi_hex_takes_its_tiles(m, entity, index, direction, origin);
    assert(cell_number(m, origin, index, direction, k) == Some(lz * REGION_SIDE + lx));
    let c = cell_content(m, origin, index, direction, k).1;
    let word = m.placed(entity, index, direction, Some(origin)).word(lx, lz);
    lemma_resource_word(
        index,
        direction,
        cell_tile(m, origin, index, direction, k) == (origin.0 as int, origin.1 as int),
    );
    lemma_ground_keeps_fields(c, m.tiles[lz * REGION_SIDE + lx]);
    assert(word == on_ground_of(c, m.tiles[lz * REGION_SIDE + lx]));
    assert(content(word) == c);
}

/// A paving on a tile of the region where nothing stands is shown there, by its
/// type. Taken away, the tile is again what it was.
pub proof fn law_paving_is_shown_until_it_goes(m: MapModel, lx: int, lz: int, paving_type_id: i32)
    requires
        m.valid(),
        in_region(lx, lz),
        content(m.word(lx, lz)) == 0,
        paving_type_id != 0,
        m.paving_ids.len() <= 1023,
    ensures
        ({
            let (x, z) = (region_corner(m.region as int).0 + lx, region_corner(m.region as int).1 + lz);
            let after = m.paved(x, z, paving_type_id);
            &&& after.paving_on(lx, lz) == Some(paving_type_id)
            &&& after.unpaved(x, z, paving_type_id).word(lx, lz) == m.word(lx, lz)
            &&& after.unpaved(x, z, paving_type_id).paving_on(lx, lz) is None
        }),
{
    let (x, z) = (region_corner(m.region as int).0 + lx, region_corner(m.region as int).1 + lz);
    let i = lz * REGION_SIDE + lx;
    let seen = MapModel { paving_ids: interned(m.paving_ids, paving_type_id), ..m };
    law_interning(m.paving_ids, paving_type_id);
    lemma_tile_number(m.region, x, z, x, z);
    let index = type_slot(seen.paving_ids, paving_type_id)->0;
    let k = choose|k: int| is_slot(seen.paving_ids, paving_type_id, k);
    assert(is_slot(seen.paving_ids, paving_type_id, k));
    lemma_type_slot(seen.paving_ids, paving_type_id, k);
    assert(seen.paving_ids[index as int] == paving_type_id);
    assert(1 <= index <= 1023);
    let write = (i as u32, on_ground_of(paving_word(index), m.tiles[i]));
    lemma_one_write(m.tiles, write);
    let after = m.paved(x, z, paving_type_id);
    assert(after.tiles[i] == write.1);
    assert(content(write.1) == paving_word(index));
    assert(word_is_paving(write.1));
    assert(word_index(write.1) == index);
    lemma_one_write(after.tiles, (i as u32, on_ground_of(0, after.tiles[i])));
}

/// A word has the index of its type in the lowest ten bits, then the flag of the
/// origin, three bits of direction, the flag of a paving and the flag of water.
pub proof fn law_words_have_their_fields(word: u16)
    ensures
        word == word_index(word) + 1024 * (if word_is_origin(word) {
            1int
        } else {
            0
        }) + 2048 * word_direction(word) + 16384 * (if word_is_paving(word) {
            1int
        } else {
            0
        }) + 32768 * (if wet(word) {
            1int
        } else {
            0
        }),
        word_index(word) < 1024,
        word_direction(word) < 8,
        word == content(word) + (if wet(word) {
            32768int
        } else {
            0
        }),
{
}

/// A row of a resource that finds room in the dictionary puts its entity where
/// the row says, with its type, and its direction in sixths of a turn.
pub proof fn law_entities_are_what_their_rows_say(
    m: MapModel,
    entity: u64,
    resource_id: i32,
    direction: int,
    loc: Option<(i32, i32)>,
    other: u64,
)
    requires
        m.valid(),
        m.ids.len() <= 1023,
    ensures
        ({
            let after = m.upserted(entity, resource_id, direction, loc);
            &&& after.nodes.dom().contains(entity)
            &&& after.nodes[entity].loc == loc
            &&& after.nodes[entity].direction == direction % 6
            &&& after.ids[after.nodes[entity].index as int] == resource_id
            &&& other != entity ==> (after.nodes.dom().contains(other) <==> m.nodes.dom().contains(other))
                && after.nodes[other] == m.nodes[other]
        }),
{
    law_interning(m.ids, resource_id);
    let seen = m.sighted(resource_id);
    let k = choose|k: int| is_slot(seen.ids, resource_id, k);
    assert(is_slot(seen.ids, resource_id, k));
    lemma_type_slot(seen.ids, resource_id, k);
}

/// An entity that moves is at its new place and stays what it was; one that was
/// taken away is not there, and the others are where they were.
pub proof fn law_entities_move_and_go(m: MapModel, entity: u64, loc: Option<(i32, i32)>, other: u64)
    requires
        m.nodes.dom().contains(entity),
        other != entity,
    ensures
        ({
            let (moved, gone) = (m.relocated(entity, loc), m.deleted(entity));
            &&& moved.nodes.dom().contains(entity)
            &&& moved.nodes[entity].loc == loc
            &&& moved.nodes[entity].index == m.nodes[entity].index
            &&& moved.nodes[entity].direction == m.nodes[entity].direction
            &&& moved.ids == m.ids
            &&& !gone.nodes.dom().contains(entity)
            &&& moved.nodes.dom().contains(other) <==> m.nodes.dom().contains(other)
            &&& gone.nodes.dom().contains(other) <==> m.nodes.dom().contains(other)
            &&& moved.nodes[other] == m.nodes[other] && gone.nodes[other] == m.nodes[other]
        }),
{
}

/// A resource of a single hex on a tile of the region where nothing stands is
/// shown there, with its type and its direction, as its own origin.
pub proof fn law_single_hex_is_shown(
    m: MapModel,
    entity: u64,
    index: u16,
    direction: u8,
    origin: (i32, i32),
    lx: int,
    lz: int,
)
    requires
        m.valid(),
        1 <= index < m.ids.len(),
        m.ids[index as int] != 0,
        direction < 6,
        m.footprint(index) == seq![(0i32, 0i32)],
        in_region(lx, lz),
        content(m.word(lx, lz)) == 0,
        origin.0 == region_corner(m.region as int).0 + lx,
        origin.1 == region_corner(m.region as int).1 + lz,
    ensures
        m.placed(entity, index, direction, Some(origin)).resource_on(lx, lz) == Some(
            ResourceTile { resource_id: m.ids[index as int], direction, is_origin: true },
        ),
{
    let i = lz * REGION_SIDE + lx;
    let c = resource_word(index, direction, true);
    let owned = m.stamp_of(Some(origin), index, direction);
    law_footprint_origin(origin.0 as int, origin.1 as int, direction as int);
    reveal_with_fuel(MapModel::stamped, 2);
    lemma_tile_number(m.region, origin.0 as int, origin.1 as int, origin.0 as int, origin.1 as int);
    assert(tile_number(m.region, origin.0 as int, origin.1 as int) == Some(i));
    assert(owned =~= seq![(i as u32, c)]);
    let writes = stamp_writes(m.tiles, owned);
    assert(writes =~= seq![(i as u32, on_ground_of(c, m.tiles[i]))]);
    lemma_one_write(m.tiles, (i as u32, on_ground_of(c, m.tiles[i])));
    lemma_resource_word(index, direction, true);
    lemma_ground_keeps_fields(c, m.tiles[i]);
    assert(m.placed(entity, index, direction, Some(origin)).word(lx, lz) == on_ground_of(c, m.tiles[i]));
}

} // verus!
