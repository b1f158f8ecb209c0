//! Windows of the map around a tile, as packed bytes, and the frames that
//! carry changes of the map.

use vstd::prelude::*;

use crate::int_math::fits_i32;
use crate::le_bytes::{
    bits32, from_le, law_le_round_trip, le, lemma_le_len, lemma_u16s_le_at, lemma_u64s_le_at, pow256, push_i32_le,
    push_u16_le, push_u32_le, u16s_le, u64s_le,
};
use crate::roads::coords::{
    center_of, corner_supers, in_region, is_corner, law_super_column_period, law_super_monotone,
    law_world_tile_is_local, map_region, region_corner, region_of, region_origin, small_to_super, super_center_tile, super_of,
    world_to_region,
};
use crate::roads::grid::{lemma_row_index, terrain_at, terrain_window};
use crate::roads::store::{GridModel, RoadsRegionGrid};
use crate::roads::watch::WatchFrame;
use crate::text::{chars_of, decimal, law_decimal_round_trip, parse_i32, push_chars, push_decimal, signed_number};

verus! {

/// Side of a window in tiles. The tile that was asked for has `(200, 200)` in
/// it.
pub const RESOURCE_WINDOW_WIDTH: usize = 400;

/// Half the side of a window.
pub const RESOURCE_WINDOW_HALF: i32 = 200;

/// Largest number of tiles in a frame of changes.
pub const BMD1_MAX_TILES: usize = 65535;

/// The maps of a region as a request finds them.
pub enum RegionMaps<'a> {
    /// No maps are kept at all.
    Off,
    /// The region has none.
    Missing,
    Held(&'a RoadsRegionGrid),
}

/// What a request for a window is answered.
#[derive(Debug)]
pub enum WindowReply {
    /// No maps are kept at all.
    NotEnabled,
    /// The region has no maps.
    NoMap { region: u32 },
    /// The maps are still being filled.
    Loading,
    Body(Vec<u8>),
}

/// World coordinates of the first tile of a window around a tile.
pub open spec fn window_corner(center: (i32, i32)) -> (int, int) {
    (center.0 - RESOURCE_WINDOW_HALF, center.1 - RESOURCE_WINDOW_HALF)
}

/// Region-local coordinates of the first tile of a window.
pub open spec fn local_corner(region: u16, center: (i32, i32)) -> (int, int) {
    (
        window_corner(center).0 - region_corner(region as int).0,
        window_corner(center).1 - region_corner(region as int).1,
    )
}

/// Whether the coordinates of a window of a region are 32-bit integers.
pub open spec fn window_fits(region: u16, center: (i32, i32)) -> bool {
    &&& fits_i32(window_corner(center).0)
    &&& fits_i32(window_corner(center).1)
    &&& fits_i32(local_corner(region, center).0)
    &&& fits_i32(local_corner(region, center).1)
}

/// What stands before the words of a window of resources.
pub open spec fn resource_header(m: GridModel, region: u32, center: (i32, i32)) -> Seq<u8> {
    seq![0x42u8, 0x4du8, 0x52u8, 0x31u8] + le(1, 2) + le(400, 2) + le(bits32(window_corner(center).0 as i32), 4) + le(
        bits32(window_corner(center).1 as i32),
        4,
    ) + le(region as nat, 4) + le(m.resources.version() as nat, 4)
}

/// A window of resources around a tile: a header of 24 bytes, then a word for
/// each tile, row by row.
pub open spec fn resource_body(m: GridModel, region: u32, center: (i32, i32)) -> Seq<u8> {
    resource_header(m, region, center) + u16s_le(m.resources.window(local_corner(m.region, center), 400))
}

/// Packs the window of resources of a region around a tile; `None` while the maps are
/// being filled.
pub fn resource_window(grid: &RoadsRegionGrid, region: u32, center: (i32, i32)) -> (r: Option<Vec<u8>>)
    requires
        grid.wf(),
        window_fits(grid.region, center),
    ensures
        match r {
            Some(body) => grid@.ready && body@ == resource_body(grid@, region, center),
            None => !grid@.ready,
        },
{
    if !grid.ready {
        return None;
    }
    let x: i32 = center.0 - RESOURCE_WINDOW_HALF;
    let z: i32 = center.1 - RESOURCE_WINDOW_HALF;
    let origin = region_origin(grid.region);
    let payload = grid.resource_map.window((x - origin.x, z - origin.z), RESOURCE_WINDOW_WIDTH);
    let mut body: Vec<u8> = vec![0x42u8, 0x4du8, 0x52u8, 0x31u8];
    assert(body@ =~= seq![0x42u8, 0x4du8, 0x52u8, 0x31u8]);
    push_u16_le(&mut body, 1);
    push_u16_le(&mut body, 400);
    push_i32_le(&mut body, x);
    push_i32_le(&mut body, z);
    push_u32_le(&mut body, region);
    push_u32_le(&mut body, grid.resource_map.dict_version());
    push_bytes(&mut body, payload.as_slice());
    Some(body)
}

/// Appends bytes.
fn push_bytes(out: &mut Vec<u8>, bytes: &[u8])
    ensures
        final(out)@ == old(out)@ + bytes@,
{
    let mut i: usize = 0;
    assert(out@ + bytes@.take(0) =~= out@);
    while i < bytes.len()
        invariant
            i <= bytes@.len(),
            out@ == old(out)@ + bytes@.take(i as int),
        decreases bytes.len() - i,
    {
        out.push(bytes[i]);
        assert(out@ =~= old(out)@ + bytes@.take(i + 1));
        i += 1;
    }
    assert(bytes@.take(i as int) =~= bytes@);
}

/// Whether a tile belongs to a window.
pub open spec fn in_tile_window(lx0: int, lz0: int, width: int, height: int, x: int, z: int) -> bool {
    lx0 <= x < lx0 + width && lz0 <= z < lz0 + height
}

/// Whether a super column is the leftmost one that owns a tile of a window.
pub open spec fn is_first_column(lx0: int, lz0: int, width: int, height: int, c: int) -> bool {
    &&& exists|x: int, z: int| #[trigger] in_tile_window(lx0, lz0, width, height, x, z) && super_of(x, z).0 == c
    &&& forall|x: int, z: int| #[trigger] in_tile_window(lx0, lz0, width, height, x, z) ==> super_of(x, z).0 >= c
}

/// Whether a super column is the rightmost one that owns a tile of a window.
pub open spec fn is_last_column(lx0: int, lz0: int, width: int, height: int, c: int) -> bool {
    &&& exists|x: int, z: int| #[trigger] in_tile_window(lx0, lz0, width, height, x, z) && super_of(x, z).0 == c
    &&& forall|x: int, z: int| #[trigger] in_tile_window(lx0, lz0, width, height, x, z) ==> super_of(x, z).0 <= c
}

/// Whether a window of super hexes is the least one that holds the owners of
/// all tiles of a window, with one more super hex on each side.
pub open spec fn is_cover(lx0: int, lz0: int, width: int, height: int, c: ((int, int), int, int)) -> bool {
    &&& is_first_column(lx0, lz0, width, height, c.0.0 + 1)
    &&& is_last_column(lx0, lz0, width, height, c.0.0 + c.1 - 2)
    &&& c.0.1 == super_of(lx0, lz0).1 - 1
    &&& c.0.1 + c.2 - 1 == super_of(lx0, lz0 + height - 1).1 + 1
}

/// The super column of a tile repeats every six rows.
proof fn lemma_column_period(x: int, z: int, k: nat)
    ensures
        super_of(x, z + 6 * k).0 == super_of(x, z).0,
    decreases k,
{
    if k > 0 {
        lemma_column_period(x, z, (k - 1) as nat);
        law_super_column_period(x, z + 6 * (k - 1));
    }
}

/// A super column is about a third of the tile column.
proof fn lemma_column_near(x: int, z: int)
    ensures
        x - 5 <= 3 * super_of(x, z).0 <= x + 5,
{
}

/// Each tile of a window shares its super column with the tile of the same
/// column in one of the first six rows.
proof fn lemma_first_rows(lz0: int, height: int, x: int, z: int) -> (d: int)
    requires
        lz0 <= z < lz0 + height,
    ensures
        0 <= d < 6,
        d < height,
        super_of(x, lz0 + d).0 == super_of(x, z).0,
{
    let d = (z - lz0) % 6;
    let k = ((z - lz0) / 6) as nat;
    lemma_column_period(x, lz0 + d, k);
    assert(lz0 + d + 6 * k == z);
    d
}

/// The window of super hexes that covers the tiles `[lx0, lx0 + width)` by
/// `[lz0, lz0 + height)`: first super hex, width, height. One more super hex
/// on each side lets the corner tiles at the edges blend all of their three.
///
/// The super column of a tile repeats every six rows and grows with the tile
/// column, so six rows at both ends tell the columns.
pub fn covering_super_window(lx0: i32, lz0: i32, width: i32, height: i32) -> (r: ((i32, i32), usize, usize))
    requires
        width >= 1,
        height >= 1,
        lx0 + width - 1 <= i32::MAX,
        lz0 + height - 1 <= i32::MAX,
    ensures
        is_cover(
            lx0 as int,
            lz0 as int,
            width as int,
            height as int,
            ((r.0.0 as int, r.0.1 as int), r.1 as int, r.2 as int),
        ),
{
    let last: i32 = lx0 + (width - 1);
    let rows: i32 = if height < 6 {
        height
    } else {
        6
    };
    let mut x_min: i64 = small_to_super(lx0, lz0).0 as i64;
    let mut x_max: i64 = small_to_super(last, lz0).0 as i64;
    let ghost mut at_min: int = lz0 as int;
    let ghost mut at_max: int = lz0 as int;
    let mut d: i32 = 1;
    while d < rows
        invariant
            1 <= d <= rows <= 6,
            rows <= height,
            lz0 + height - 1 <= i32::MAX,
            -1_500_000_000 <= x_min <= 1_500_000_000,
            -1_500_000_000 <= x_max <= 1_500_000_000,
            lz0 <= at_min < lz0 + d,
            lz0 <= at_max < lz0 + d,
            x_min == super_of(lx0 as int, at_min).0,
            x_max == super_of(last as int, at_max).0,
            forall|k: int| 0 <= k < d ==> #[trigger] super_of(lx0 as int, lz0 + k).0 >= x_min,
            forall|k: int| 0 <= k < d ==> #[trigger] super_of(last as int, lz0 + k).0 <= x_max,
        decreases rows - d,
    {
        let z: i32 = lz0 + d;
        let first: i64 = small_to_super(lx0, z).0 as i64;
        let end: i64 = small_to_super(last, z).0 as i64;
        if first < x_min {
            x_min = first;
            proof {
                at_min = z as int;
            }
        }
        if end > x_max {
            x_max = end;
            proof {
                at_max = z as int;
            }
        }
        d += 1;
    }
    let z_first: i64 = small_to_super(lx0, lz0).1 as i64;
    let z_last: i64 = small_to_super(lx0, lz0 + (height - 1)).1 as i64;
    proof {
        assert(in_tile_window(lx0 as int, lz0 as int, width as int, height as int, lx0 as int, at_min));
        assert(in_tile_window(lx0 as int, lz0 as int, width as int, height as int, last as int, at_max));
        assert forall|x: int, z: int| #[trigger] in_tile_window(lx0 as int, lz0 as int, width as int, height as int, x, z) implies x_min
            <= super_of(x, z).0 <= x_max by {
            let k = lemma_first_rows(lz0 as int, height as int, x, z);
            law_super_monotone(lx0 as int, x, lz0 + k, lz0 + k);
            law_super_monotone(x, last as int, lz0 + k, lz0 + k);
        }
        assert(x_min <= x_max);
        law_super_monotone(lx0 as int, lx0 as int, lz0 as int, lz0 + height - 1);
    }
    (
        ((x_min - 1) as i32, (z_first - 1) as i32),
        (x_max - x_min + 3) as usize,
        (z_last - z_first + 3) as usize,
    )
}

/// A cover holds all super hexes that each tile of the window blends: the
/// owner of a tile, and in a corner tile all three.
pub proof fn law_cover_holds_every_blend(lx0: int, lz0: int, width: int, height: int, c: ((int, int), int, int), x: int, z: int)
    requires
        is_cover(lx0, lz0, width, height, c),
        in_tile_window(lx0, lz0, width, height, x, z),
    ensures
        c.0.0 <= super_of(x, z).0 < c.0.0 + c.1,
        c.0.1 <= super_of(x, z).1 < c.0.1 + c.2,
        is_corner(x, z) ==> forall|i: int|
            0 <= i < 3 ==> c.0.0 <= (#[trigger] corner_supers(x, z)[i]).0 < c.0.0 + c.1 && c.0.1 <= corner_supers(x, z)[i].1
                < c.0.1 + c.2,
{
    law_super_monotone(x, x, lz0, z);
    law_super_monotone(x, x, z, lz0 + height - 1);
    law_super_monotone(lx0, x, lz0, lz0);
    law_super_monotone(lx0, x, lz0 + height - 1, lz0 + height - 1);
    if is_corner(x, z) {
        assert forall|i: int| 0 <= i < 3 implies c.0.0 <= (#[trigger] corner_supers(x, z)[i]).0 < c.0.0 + c.1 && c.0.1
            <= corner_supers(x, z)[i].1 < c.0.1 + c.2 by {
            assert(i == 0 || i == 1 || i == 2);
        }
    }
}

/// What stands before the cells of a window of terrain.
pub open spec fn elevation_header(m: GridModel, region: u32, c: ((int, int), int, int)) -> Seq<u8> {
    let corner = region_corner(m.region as int);
    let center = center_of(c.0.0, c.0.1);
    seq![0x42u8, 0x4du8, 0x45u8, 0x31u8] + le(2, 2) + le(c.1 as nat, 2) + le(c.2 as nat, 2) + le(
        bits32((corner.0 + center.0) as i32),
        4,
    ) + le(bits32((corner.1 + center.1) as i32), 4) + le(region as nat, 4) + le((m.generation % 0x1_0000_0000) as nat, 4)
}

/// The cells of a window of terrain, row by row.
pub open spec fn cover_cells(m: GridModel, c: ((int, int), int, int)) -> Seq<u64> {
    Seq::new((c.1 * c.2) as nat, |i: int| terrain_at(m.terrain, c.0.0 + i % c.1, c.0.1 + i / c.1))
}

/// A window of terrain: a header of 26 bytes, which names the middle tile of
/// the first super hex, then a cell for each super hex, row by row.
pub open spec fn elevation_body(m: GridModel, region: u32, c: ((int, int), int, int)) -> Seq<u8> {
    elevation_header(m, region, c) + u64s_le(cover_cells(m, c))
}

/// Whether a window of terrain around a tile has coordinates in `i32`.
pub open spec fn elevation_fits(region: u16, center: (i32, i32)) -> bool {
    &&& window_fits(region, center)
    &&& i32::MIN + 20 <= local_corner(region, center).0 <= i32::MAX - 500
    &&& i32::MIN + 20 <= local_corner(region, center).1 <= i32::MAX - 500
    &&& i32::MIN + 20 <= window_corner(center).0
    &&& i32::MIN + 20 <= window_corner(center).1
}

/// Whether bytes are the window of terrain that covers the window around a
/// tile.
pub open spec fn is_elevation_window(m: GridModel, region: u32, center: (i32, i32), body: Seq<u8>) -> bool {
    let o = local_corner(m.region, center);
    exists|c: ((int, int), int, int)|
        #[trigger] is_cover(o.0, o.1, 400, 400, c) && c.1 <= 140 && c.2 <= 140 && body == elevation_body(m, region, c)
}

/// Packs the terrain that covers the window around a tile; `None` while the
/// maps are being filled.
pub fn elevation_window(grid: &RoadsRegionGrid, region: u32, center: (i32, i32)) -> (r: Option<Vec<u8>>)
    requires
        grid.wf(),
        elevation_fits(grid.region, center),
    ensures
        match r {
            Some(body) => grid@.ready && is_elevation_window(grid@, region, center, body@),
            None => !grid@.ready,
        },
{
    if !grid.ready {
        return None;
    }
    let origin = region_origin(grid.region);
    let lx: i32 = center.0 - RESOURCE_WINDOW_HALF - origin.x;
    let lz: i32 = center.1 - RESOURCE_WINDOW_HALF - origin.z;
    let (super_origin, width, height) = covering_super_window(lx, lz, 400, 400);
    let ghost c = ((super_origin.0 as int, super_origin.1 as int), width as int, height as int);
    proof {
        lemma_cover_size(lx as int, lz as int, c);
    }
    assert(width * height <= 20000) by (nonlinear_arith)
        requires
            width <= 140,
            height <= 140,
    ;
    let payload = grid.terrain.window_rect(super_origin, width, height);
    proof {
        assert(terrain_window(grid.terrain, c.0, c.1, c.2) =~= cover_cells(grid@, c));
    }
    let first = super_center_tile(super_origin.0, super_origin.1);
    let mut body: Vec<u8> = vec![0x42u8, 0x4du8, 0x45u8, 0x31u8];
    assert(body@ =~= seq![0x42u8, 0x4du8, 0x45u8, 0x31u8]);
    push_u16_le(&mut body, 2);
    push_u16_le(&mut body, width as u16);
    push_u16_le(&mut body, height as u16);
    push_i32_le(&mut body, origin.x + first.0);
    push_i32_le(&mut body, origin.z + first.1);
    push_u32_le(&mut body, region);
    push_u32_le(&mut body, (grid.generation % 0x1_0000_0000) as u32);
    push_bytes(&mut body, payload.as_slice());
    assert(body@ == elevation_body(grid@, region, c));
    Some(body)
}

/// The cover of a window of 400 by 400 tiles is a third as wide, and its first
/// middle tile is near the first tile of the window.
proof fn lemma_cover_size(lx: int, lz: int, c: ((int, int), int, int))
    requires
        is_cover(lx, lz, 400, 400, c),
    ensures
        130 <= c.1 <= 140,
        130 <= c.2 <= 140,
        lx - 15 <= center_of(c.0.0, c.0.1).0 <= lx + 10,
        lz - 15 <= center_of(c.0.0, c.0.1).1 <= lz + 10,
{
    let (x1, z1) = choose|x: int, z: int| #[trigger]
        in_tile_window(lx, lz, 400, 400, x, z) && super_of(x, z).0 == c.0.0 + 1;
    let (x2, z2) = choose|x: int, z: int| #[trigger]
        in_tile_window(lx, lz, 400, 400, x, z) && super_of(x, z).0 == c.0.0 + c.1 - 2;
    lemma_column_near(x1, z1);
    lemma_column_near(x2, z2);
    assert(in_tile_window(lx, lz, 400, 400, lx, lz));
    assert(in_tile_window(lx, lz, 400, 400, lx + 399, lz));
    lemma_column_near(lx, lz);
    lemma_column_near(lx + 399, lz);
}

/// The header of a window of resources takes 24 bytes.
proof fn lemma_resource_header(m: GridModel, region: u32, center: (i32, i32))
    ensures
        resource_header(m, region, center).len() == 24,
{
    lemma_le_len(1, 2);
    lemma_le_len(400, 2);
    lemma_le_len(bits32(window_corner(center).0 as i32), 4);
    lemma_le_len(bits32(window_corner(center).1 as i32), 4);
    lemma_le_len(region as nat, 4);
    lemma_le_len(m.resources.version() as nat, 4);
}

/// The header of a window of terrain takes 26 bytes.
proof fn lemma_elevation_header(m: GridModel, region: u32, c: ((int, int), int, int))
    ensures
        elevation_header(m, region, c).len() == 26,
{
    let corner = region_corner(m.region as int);
    let center = center_of(c.0.0, c.0.1);
    lemma_le_len(2, 2);
    lemma_le_len(c.1 as nat, 2);
    lemma_le_len(c.2 as nat, 2);
    lemma_le_len(bits32((corner.0 + center.0) as i32), 4);
    lemma_le_len(bits32((corner.1 + center.1) as i32), 4);
    lemma_le_len(region as nat, 4);
    lemma_le_len((m.generation % 0x1_0000_0000) as nat, 4);
}

/// Who reads the word for a row and a column out of a window of resources has
/// the word of the tile there, or zero off the region.
pub proof fn law_resource_window_reads_back(m: GridModel, region: u32, center: (i32, i32), row: int, col: int)
    requires
        0 <= row < 400,
        0 <= col < 400,
    ensures
        ({
            let at = 24 + 2 * (row * 400 + col);
            let lx = center.0 - 200 + col - region_corner(m.region as int).0;
            let lz = center.1 - 200 + row - region_corner(m.region as int).1;
            &&& resource_body(m, region, center).len() == 24 + 400 * 400 * 2
            &&& from_le(resource_body(m, region, center).subrange(at, at + 2)) == if in_region(lx, lz) {
                m.resources.word(lx, lz)
            } else {
                0
            }
        }),
{
    let words = m.resources.window(local_corner(m.region, center), 400);
    let i = row * 400 + col;
    lemma_resource_header(m, region, center);
    lemma_u16s_le_at(words, i);
    lemma_row_index(row, col, 400);
    assert(resource_body(m, region, center).subrange(24 + 2 * i, 24 + 2 * i + 2) =~= u16s_le(words).subrange(2 * i, 2 * i + 2));
    assert(pow256(2) == 0x1_0000) by {
        reveal_with_fuel(pow256, 3);
    }
    law_le_round_trip(words[i] as nat, 2);
}

/// Who reads the cell for a row and a column out of a window of terrain has
/// the terrain of the super hex there, or zero off the region.
pub proof fn law_elevation_window_reads_back(m: GridModel, region: u32, c: ((int, int), int, int), row: int, col: int)
    requires
        0 <= row < c.2,
        0 <= col < c.1,
    ensures
        ({
            let at = 26 + 8 * (row * c.1 + col);
            &&& elevation_body(m, region, c).len() == 26 + 8 * (c.1 * c.2)
            &&& from_le(elevation_body(m, region, c).subrange(at, at + 8)) == terrain_at(m.terrain, c.0.0 + col, c.0.1 + row)
        }),
{
    let cells = cover_cells(m, c);
    let i = row * c.1 + col;
    lemma_elevation_header(m, region, c);
    assert(0 <= i < c.1 * c.2) by (nonlinear_arith)
        requires
            0 <= row < c.2,
            0 <= col < c.1,
            i == row * c.1 + col,
    ;
    lemma_u64s_le_at(cells, i);
    lemma_row_index(row, col, c.1);
    assert(elevation_body(m, region, c).subrange(26 + 8 * i, 26 + 8 * i + 8) =~= u64s_le(cells).subrange(8 * i, 8 * i + 8));
    assert(pow256(8) == 0x1_0000_0000_0000_0000) by {
        reveal_with_fuel(pow256, 9);
    }
    law_le_round_trip(cells[i] as nat, 8);
}

/// Why a pair of coordinates leads nowhere.
#[derive(Debug, Clone, Copy, PartialEq, Eq, Structural)]
pub enum AnchorError {
    /// One of them is no 32-bit integer.
    NotIntegers,
    /// No region of the world holds the tile.
    OffWorld { x: i32, z: i32 },
}

/// The 32-bit integer that a text spells.
pub open spec fn coordinate(s: Seq<char>) -> Option<i32> {
    match signed_number(s) {
        Some(v) if i32::MIN <= v <= i32::MAX => Some(v as i32),
        _ => None,
    }
}

/// What a pair of coordinates leads to: the tile, and the region that holds
/// it.
pub open spec fn anchor(x: Seq<char>, z: Seq<char>) -> Result<(i32, i32, u32), AnchorError> {
    match (coordinate(x), coordinate(z)) {
        (Some(x), Some(z)) => match region_of(x as int, z as int) {
            Some(region) => Ok((x, z, region as u32)),
            None => Err(AnchorError::OffWorld { x, z }),
        },
        _ => Err(AnchorError::NotIntegers),
    }
}

/// The tile that a pair of coordinates names, and the region that holds it.
pub fn resolve_world_anchor(x: &str, z: &str) -> (r: Result<(i32, i32, u32), AnchorError>)
    ensures
        r == anchor(x@, z@),
{
    let tile = (parse_i32(chars_of(x).as_slice()), parse_i32(chars_of(z).as_slice()));
    match tile {
        (Some(x), Some(z)) => match world_to_region(x, z) {
            Some(region) => Ok((x, z, region as u32)),
            None => Err(AnchorError::OffWorld { x, z }),
        },
        _ => Err(AnchorError::NotIntegers),
    }
}

/// Whether the maps that a request found are those of a region.
pub open spec fn maps_of(maps: RegionMaps, region: u32) -> bool {
    match maps {
        RegionMaps::Held(g) => g.wf() && g.region == map_region(region),
        _ => true,
    }
}

/// What a request for a window answers where the maps are not there or not
/// ready.
pub open spec fn unavailable(maps: RegionMaps, region: u32) -> Option<WindowReply> {
    match maps {
        RegionMaps::Off => Some(WindowReply::NotEnabled),
        RegionMaps::Missing => Some(WindowReply::NoMap { region }),
        RegionMaps::Held(g) => if g@.ready {
            None
        } else {
            Some(WindowReply::Loading)
        },
    }
}

/// Answers a request for the window of resources around a tile of a region.
pub fn resource_window_response(maps: RegionMaps, region: u32, center: (i32, i32)) -> (r: WindowReply)
    requires
        maps_of(maps, region),
        maps matches RegionMaps::Held(g) ==> window_fits(g.region, center),
    ensures
        match unavailable(maps, region) {
            Some(reply) => r == reply,
            None => {
                &&& maps matches RegionMaps::Held(g)
                &&& r matches WindowReply::Body(b)
                &&& b@ == resource_body(g@, region, center)
            },
        },
{
    match maps {
        RegionMaps::Off => WindowReply::NotEnabled,
        RegionMaps::Missing => WindowReply::NoMap { region },
        RegionMaps::Held(g) => match resource_window(g, region, center) {
            Some(body) => WindowReply::Body(body),
            None => WindowReply::Loading,
        },
    }
}

/// Answers a request for the terrain under the window around a tile of a
/// region.
pub fn elevation_window_response(maps: RegionMaps, region: u32, center: (i32, i32)) -> (r: WindowReply)
    requires
        maps_of(maps, region),
        maps matches RegionMaps::Held(g) ==> elevation_fits(g.region, center),
    ensures
        match unavailable(maps, region) {
            Some(reply) => r == reply,
            None => {
                &&& maps matches RegionMaps::Held(g)
                &&& r matches WindowReply::Body(b)
                &&& is_elevation_window(g@, region, center, b@)
            },
        },
{
    match maps {
        RegionMaps::Off => WindowReply::NotEnabled,
        RegionMaps::Missing => WindowReply::NoMap { region },
        RegionMaps::Held(g) => match elevation_window(g, region, center) {
            Some(body) => WindowReply::Body(body),
            None => WindowReply::Loading,
        },
    }
}

/// A tile of the world has its windows in range.
pub proof fn law_world_windows_fit(x: i32, z: i32)
    ensures
        region_of(x as int, z as int) matches Some(region) ==> 1 <= region <= 25 && window_fits(region as u16, (x, z))
            && elevation_fits(region as u16, (x, z)),
{
    law_world_tile_is_local(x as int, z as int);
}

/// What stands before the tiles of a frame of changes.
pub open spec fn delta_header(region: u32, dict_version: u32, count: nat) -> Seq<u8> {
    seq![0x42u8, 0x4du8, 0x44u8, 0x31u8] + le(1, 2) + le(region as nat, 4) + le(dict_version as nat, 4) + le(count, 2)
}

/// A changed tile: its world coordinates and its word.
pub open spec fn tile_bytes(t: (i32, i32, u16)) -> Seq<u8> {
    le(bits32(t.0), 4) + le(bits32(t.1), 4) + le(t.2 as nat, 2)
}

/// Changed tiles one after the other.
pub open spec fn tiles_bytes(tiles: Seq<(i32, i32, u16)>) -> Seq<u8>
    decreases tiles.len(),
{
    if tiles.len() == 0 {
        Seq::empty()
    } else {
        tiles_bytes(tiles.drop_last()) + tile_bytes(tiles.last())
    }
}

/// A frame of changes: a header of 16 bytes, then ten bytes for each tile.
pub open spec fn delta_frame(region: u32, dict_version: u32, tiles: Seq<(i32, i32, u16)>) -> Seq<u8> {
    delta_header(region, dict_version, tiles.len()) + tiles_bytes(tiles)
}

/// The part of a list of tiles that goes into a frame.
pub open spec fn frame_part(tiles: Seq<(i32, i32, u16)>, k: int) -> Seq<(i32, i32, u16)> {
    let end = (k + 1) * BMD1_MAX_TILES;
    tiles.subrange(
        k * BMD1_MAX_TILES,
        if end < tiles.len() {
            end
        } else {
            tiles.len() as int
        },
    )
}

/// Number of frames for a list of tiles.
pub open spec fn frame_count(n: int) -> int {
    (n + BMD1_MAX_TILES - 1) / (BMD1_MAX_TILES as int)
}

/// Packs one frame of changes.
fn pack_frame(region: u32, dict_version: u32, tiles: &[(i32, i32, u16)], from: usize, to: usize) -> (r: Vec<u8>)
    requires
        from <= to <= tiles@.len(),
        to - from <= BMD1_MAX_TILES,
    ensures
        r@ == delta_frame(region, dict_version, tiles@.subrange(from as int, to as int)),
{
    let ghost part = tiles@.subrange(from as int, to as int);
    let mut body: Vec<u8> = vec![0x42u8, 0x4du8, 0x44u8, 0x31u8];
    assert(body@ =~= seq![0x42u8, 0x4du8, 0x44u8, 0x31u8]);
    push_u16_le(&mut body, 1);
    push_u32_le(&mut body, region);
    push_u32_le(&mut body, dict_version);
    push_u16_le(&mut body, (to - from) as u16);
    let ghost header = body@;
    let mut i: usize = from;
    assert(header + tiles_bytes(part.take(0)) =~= header);
    while i < to
        invariant
            from <= i <= to <= tiles@.len(),
            part == tiles@.subrange(from as int, to as int),
            body@ == header + tiles_bytes(part.take(i - from)),
        decreases to - i,
    {
        let (x, z, word) = tiles[i];
        push_i32_le(&mut body, x);
        push_i32_le(&mut body, z);
        push_u16_le(&mut body, word);
        proof {
            let k = i - from;
            assert(part.take(k + 1).drop_last() =~= part.take(k));
            assert(part.take(k + 1).last() == (x, z, word));
            assert(body@ =~= header + tiles_bytes(part.take(k + 1)));
        }
        i += 1;
    }
    assert(part.take(i - from) =~= part);
    body
}

/// Packs changed tiles into frames, as many in each as its count can tell.
pub fn delta_frames(region: u32, dict_version: u32, tiles: &[(i32, i32, u16)]) -> (r: Vec<Vec<u8>>)
    ensures
        r@.len() == frame_count(tiles@.len() as int),
        forall|k: int|
            0 <= k < r@.len() ==> (#[trigger] r@[k])@ == delta_frame(region, dict_version, frame_part(tiles@, k)),
{
    let mut frames: Vec<Vec<u8>> = Vec::new();
    let mut at: usize = 0;
    while at < tiles.len()
        invariant
            at <= tiles@.len(),
            at < tiles@.len() ==> at == frames@.len() * BMD1_MAX_TILES,
            at == tiles@.len() ==> frames@.len() == frame_count(tiles@.len() as int),
            forall|k: int|
                0 <= k < frames@.len() ==> (#[trigger] frames@[k])@ == delta_frame(
                    region,
                    dict_version,
                    frame_part(tiles@, k),
                ),
        decreases tiles.len() - at,
    {
        let left: usize = tiles.len() - at;
        let to: usize = if left > BMD1_MAX_TILES {
            at + BMD1_MAX_TILES
        } else {
            tiles.len()
        };
        let frame = pack_frame(region, dict_version, tiles, at, to);
        assert(frame@ == delta_frame(region, dict_version, frame_part(tiles@, frames@.len() as int)));
        frames.push(frame);
        at = to;
    }
    frames
}

/// Ten bytes for each changed tile, and each at its place.
proof fn lemma_tiles_bytes(tiles: Seq<(i32, i32, u16)>, i: int)
    requires
        0 <= i < tiles.len(),
    ensures
        tiles_bytes(tiles).len() == 10 * tiles.len(),
        tiles_bytes(tiles).subrange(10 * i, 10 * i + 10) == tile_bytes(tiles[i]),
    decreases tiles.len(),
{
    let t = tiles.last();
    lemma_le_len(bits32(t.0), 4);
    lemma_le_len(bits32(t.1), 4);
    lemma_le_len(t.2 as nat, 2);
    let rest = tiles.drop_last();
    if rest.len() > 0 {
        if i < rest.len() {
            lemma_tiles_bytes(rest, i);
            assert(tiles_bytes(tiles).subrange(10 * i, 10 * i + 10) =~= tiles_bytes(rest).subrange(10 * i, 10 * i + 10));
        } else {
            lemma_tiles_bytes(rest, 0);
            assert(tiles_bytes(tiles).subrange(10 * i, 10 * i + 10) =~= tile_bytes(t));
        }
    } else {
        assert(tiles_bytes(rest) =~= Seq::<u8>::empty());
        assert(tiles_bytes(tiles).subrange(0, 10) =~= tile_bytes(t));
    }
}

/// Who reads a frame of changes has the count and each tile again, behind `BMD1`
/// and the version 1.
pub proof fn law_delta_frame_reads_back(region: u32, dict_version: u32, tiles: Seq<(i32, i32, u16)>, i: int)
    requires
        tiles.len() <= BMD1_MAX_TILES,
        0 <= i < tiles.len(),
    ensures
        ({
            let f = delta_frame(region, dict_version, tiles);
            let at = 16 + 10 * i;
            &&& f.len() == 16 + 10 * tiles.len()
            &&& f.subrange(0, 4) == seq![66u8, 77u8, 68u8, 49u8]
            &&& from_le(f.subrange(4, 6)) == 1
            &&& from_le(f.subrange(6, 10)) == region
            &&& from_le(f.subrange(10, 14)) == dict_version
            &&& from_le(f.subrange(14, 16)) == tiles.len()
            &&& from_le(f.subrange(at, at + 4)) == bits32(tiles[i].0)
            &&& from_le(f.subrange(at + 4, at + 8)) == bits32(tiles[i].1)
            &&& from_le(f.subrange(at + 8, at + 10)) == tiles[i].2
        }),
{
    let f = delta_frame(region, dict_version, tiles);
    let at = 16 + 10 * i;
    let t = tiles[i];
    lemma_le_len(1, 2);
    lemma_le_len(region as nat, 4);
    lemma_le_len(dict_version as nat, 4);
    lemma_le_len(tiles.len(), 2);
    lemma_le_len(bits32(t.0), 4);
    lemma_le_len(bits32(t.1), 4);
    lemma_le_len(t.2 as nat, 2);
    lemma_tiles_bytes(tiles, i);
    assert(pow256(2) == 0x1_0000 && pow256(4) == 0x1_0000_0000) by {
        reveal_with_fuel(pow256, 5);
    }
    law_le_round_trip(region as nat, 4);
    law_le_round_trip(dict_version as nat, 4);
    law_le_round_trip(tiles.len(), 2);
    law_le_round_trip(bits32(t.0), 4);
    law_le_round_trip(bits32(t.1), 4);
    law_le_round_trip(t.2 as nat, 2);
    law_le_round_trip(1, 2);
    assert(f.subrange(0, 4) =~= seq![66u8, 77u8, 68u8, 49u8]);
    assert(f.subrange(4, 6) =~= le(1, 2));
    assert(f.subrange(6, 10) =~= le(region as nat, 4));
    assert(f.subrange(10, 14) =~= le(dict_version as nat, 4));
    assert(f.subrange(14, 16) =~= le(tiles.len(), 2));
    let record = tiles_bytes(tiles).subrange(10 * i, 10 * i + 10);
    assert(f.subrange(at, at + 4) =~= record.subrange(0, 4));
    assert(f.subrange(at + 4, at + 8) =~= record.subrange(4, 8));
    assert(f.subrange(at + 8, at + 10) =~= record.subrange(8, 10));
    assert(record.subrange(0, 4) =~= le(bits32(t.0), 4));
    assert(record.subrange(4, 8) =~= le(bits32(t.1), 4));
    assert(record.subrange(8, 10) =~= le(t.2 as nat, 2));
}

/// Every changed tile stands in one of the frames, in the order of the list.
pub proof fn law_frames_hold_every_tile(tiles: Seq<(i32, i32, u16)>, i: int)
    requires
        0 <= i < tiles.len(),
    ensures
        0 <= i / (BMD1_MAX_TILES as int) < frame_count(tiles.len() as int),
        i % (BMD1_MAX_TILES as int) < frame_part(tiles, i / (BMD1_MAX_TILES as int)).len() <= BMD1_MAX_TILES,
        frame_part(tiles, i / (BMD1_MAX_TILES as int))[i % (BMD1_MAX_TILES as int)] == tiles[i],
{
}

/// What is sent to who listens.
#[derive(Debug)]
pub enum Packet {
    Text(String),
    Binary(Vec<u8>),
}

/// The text that asks to fetch the window anew.
pub open spec fn resync_text(region: u32, reason: Seq<char>) -> Seq<char> {
    "{\"type\":\"resync\",\"region\":"@ + decimal(region as nat) + ",\"reason\":\""@ + reason + "\"}"@
}

/// The packets for something that is sent to a listener.
pub fn watch_packets(frame: &WatchFrame) -> (r: Vec<Packet>)
    ensures
        match *frame {
            WatchFrame::Resync { region, reason } => {
                &&& r@.len() == 1
                &&& r@[0] matches Packet::Text(t)
                &&& t@ == resync_text(region, reason@)
            },
            WatchFrame::Delta { region, dict_version, tiles } => {
                &&& r@.len() == frame_count(tiles@.len() as int)
                &&& forall|k: int|
                    0 <= k < r@.len() ==> (#[trigger] r@[k] matches Packet::Binary(b) && b@ == delta_frame(
                        region,
                        dict_version,
                        frame_part(tiles@, k),
                    ))
            },
        },
{
    let mut out: Vec<Packet> = Vec::new();
    match frame {
        WatchFrame::Resync { region, reason } => {
            let mut text = String::new();
            push_chars(&mut text, chars_of("{\"type\":\"resync\",\"region\":").as_slice());
            push_decimal(&mut text, *region as u64);
            push_chars(&mut text, chars_of(",\"reason\":\"").as_slice());
            push_chars(&mut text, chars_of(*reason).as_slice());
            push_chars(&mut text, chars_of("\"}").as_slice());
            assert(text@ =~= resync_text(*region, reason@));
            out.push(Packet::Text(text));
        },
        WatchFrame::Delta { region, dict_version, tiles } => {
            let frames = delta_frames(*region, *dict_version, tiles.as_slice());
            for body in it: frames
                invariant
                    it.seq() == frames@,
                    out@.len() == it.index(),
                    forall|k: int| 0 <= k < out@.len() ==> (#[trigger] out@[k] matches Packet::Binary(b) && b == frames@[k]),
            {
                out.push(Packet::Binary(body));
            }
        },
    }
    out
}

/// A window of resources starts with `BMR1` and the version 1, then tells its
/// side, the tile of the world in its first corner, 200 tiles before the one that
/// was asked for, the region, and the version of the dictionary.
pub proof fn law_resource_windows_tell_where_they_are(m: GridModel, region: u32, center: (i32, i32))
    requires
        window_fits(m.region, center),
    ensures
        ({
            let b = resource_body(m, region, center);
            &&& b.subrange(0, 4) == seq![66u8, 77u8, 82u8, 49u8]
            &&& from_le(b.subrange(4, 6)) == 1
            &&& from_le(b.subrange(6, 8)) == 400
            &&& from_le(b.subrange(8, 12)) == bits32((center.0 - 200) as i32)
            &&& from_le(b.subrange(12, 16)) == bits32((center.1 - 200) as i32)
            &&& from_le(b.subrange(16, 20)) == region
            &&& from_le(b.subrange(20, 24)) == m.resources.version()
        }),
{
    let b = resource_body(m, region, center);
    let (x, z) = (bits32((center.0 - 200) as i32), bits32((center.1 - 200) as i32));
    lemma_resource_header(m, region, center);
    lemma_le_len(1, 2);
    lemma_le_len(400, 2);
    lemma_le_len(x, 4);
    lemma_le_len(z, 4);
    lemma_le_len(region as nat, 4);
    lemma_le_len(m.resources.version() as nat, 4);
    assert(pow256(2) == 0x1_0000 && pow256(4) == 0x1_0000_0000) by {
        reveal_with_fuel(pow256, 5);
    }
    law_le_round_trip(1, 2);
    law_le_round_trip(400, 2);
    law_le_round_trip(x, 4);
    law_le_round_trip(z, 4);
    law_le_round_trip(region as nat, 4);
    law_le_round_trip(m.resources.version() as nat, 4);
    assert(b.subrange(0, 4) =~= seq![66u8, 77u8, 82u8, 49u8]);
    assert(b.subrange(4, 6) =~= le(1, 2));
    assert(b.subrange(6, 8) =~= le(400, 2));
    assert(b.subrange(8, 12) =~= le(x, 4));
    assert(b.subrange(12, 16) =~= le(z, 4));
    assert(b.subrange(16, 20) =~= le(region as nat, 4));
    assert(b.subrange(20, 24) =~= le(m.resources.version() as nat, 4));
}

/// A window of terrain starts with `BME1` and the version 2, then tells its width
/// and its height, the middle tile of its first super hex, the region, and the
/// number of the changes, as far as it fits.
pub proof fn law_elevation_windows_tell_where_they_are(m: GridModel, region: u32, c: ((int, int), int, int))
    requires
        0 <= c.1 <= 140,
        0 <= c.2 <= 140,
    ensures
        ({
            let b = elevation_body(m, region, c);
            let corner = region_corner(m.region as int);
            let center = center_of(c.0.0, c.0.1);
            &&& b.subrange(0, 4) == seq![66u8, 77u8, 69u8, 49u8]
            &&& from_le(b.subrange(4, 6)) == 2
            &&& from_le(b.subrange(6, 8)) == c.1
            &&& from_le(b.subrange(8, 10)) == c.2
            &&& from_le(b.subrange(10, 14)) == bits32((corner.0 + center.0) as i32)
            &&& from_le(b.subrange(14, 18)) == bits32((corner.1 + center.1) as i32)
            &&& from_le(b.subrange(18, 22)) == region
            &&& m.generation < 0x1_0000_0000 ==> from_le(b.subrange(22, 26)) == m.generation
        }),
{
    let b = elevation_body(m, region, c);
    let corner = region_corner(m.region as int);
    let center = center_of(c.0.0, c.0.1);
    let (x, z) = (bits32((corner.0 + center.0) as i32), bits32((corner.1 + center.1) as i32));
    let g = (m.generation % 0x1_0000_0000) as nat;
    lemma_elevation_header(m, region, c);
    lemma_le_len(2, 2);
    lemma_le_len(c.1 as nat, 2);
    lemma_le_len(c.2 as nat, 2);
    lemma_le_len(x, 4);
    lemma_le_len(z, 4);
    lemma_le_len(region as nat, 4);
    lemma_le_len(g, 4);
    assert(pow256(2) == 0x1_0000 && pow256(4) == 0x1_0000_0000) by {
        reveal_with_fuel(pow256, 5);
    }
    law_le_round_trip(2, 2);
    law_le_round_trip(c.1 as nat, 2);
    law_le_round_trip(c.2 as nat, 2);
    law_le_round_trip(x, 4);
    law_le_round_trip(z, 4);
    law_le_round_trip(region as nat, 4);
    law_le_round_trip(g, 4);
    assert(b.subrange(0, 4) =~= seq![66u8, 77u8, 69u8, 49u8]);
    assert(b.subrange(4, 6) =~= le(2, 2));
    assert(b.subrange(6, 8) =~= le(c.1 as nat, 2));
    assert(b.subrange(8, 10) =~= le(c.2 as nat, 2));
    assert(b.subrange(10, 14) =~= le(x, 4));
    assert(b.subrange(14, 18) =~= le(z, 4));
    assert(b.subrange(18, 22) =~= le(region as nat, 4));
    assert(b.subrange(22, 26) =~= le(g, 4));
}

/// A pair of whole numbers leads to the tile that they name and to the region of
/// the world that holds it; what is no number leads nowhere.
pub proof fn law_coordinates_lead_to_their_region(x: nat, z: nat, other: Seq<char>)
    requires
        x <= 0x7fff_ffff,
        z <= 0x7fff_ffff,
    ensures
        ({
            let r = anchor(decimal(x), decimal(z));
            match region_of(x as int, z as int) {
                Some(region) => r == Ok::<(i32, i32, u32), AnchorError>((x as i32, z as i32, region as u32)),
                None => r == Err::<(i32, i32, u32), AnchorError>(AnchorError::OffWorld { x: x as i32, z: z as i32 }),
            }
        }),
        coordinate(other) is None ==> anchor(other, decimal(z)) == Err::<(i32, i32, u32), AnchorError>(
            AnchorError::NotIntegers,
        ) && anchor(decimal(x), other) == Err::<(i32, i32, u32), AnchorError>(AnchorError::NotIntegers),
{
    law_decimal_round_trip(x);
    law_decimal_round_trip(z);
    assert(decimal(x)[0] != '-' && decimal(z)[0] != '-');
}

/// A window is shown just where maps of the region are kept and all their rows
/// are there; else it is told which of these is missing.
pub proof fn law_windows_need_maps_that_are_ready(maps: RegionMaps, region: u32)
    ensures
        unavailable(maps, region) is None <==> (maps matches RegionMaps::Held(g) && g@.ready),
        maps is Off <==> unavailable(maps, region) == Some(WindowReply::NotEnabled),
        maps is Missing <==> unavailable(maps, region) == Some(WindowReply::NoMap { region }),
{
}

/// A window of terrain around a tile has every tile of the square that reaches
/// from two hundred tiles before it to two hundred behind it: the cell of the
/// super hex that holds the tile is found by the width of the window and by its
/// first super hex, whose middle the window tells.
pub proof fn law_elevation_windows_hold_the_square_around(
    m: GridModel,
    region: u32,
    center: (i32, i32),
    body: Seq<u8>,
    x: int,
    z: int,
)
    requires
        is_elevation_window(m, region, center, body),
        center.0 - 200 <= x < center.0 + 200,
        center.1 - 200 <= z < center.1 + 200,
    ensures
        exists|first: (int, int)|
            {
                let corner = region_corner(m.region as int);
                let middle = #[trigger] center_of(first.0, first.1);
                let held = super_of(x - corner.0, z - corner.1);
                let width = from_le(body.subrange(6, 8));
                let at = 26 + 8 * ((held.1 - first.1) * width + held.0 - first.0);
                &&& from_le(body.subrange(10, 14)) == bits32((corner.0 + middle.0) as i32)
                &&& from_le(body.subrange(14, 18)) == bits32((corner.1 + middle.1) as i32)
                &&& 0 <= held.0 - first.0 < width
                &&& 26 <= at <= body.len() - 8
                &&& from_le(body.subrange(at, at + 8)) == terrain_at(m.terrain, held.0, held.1)
            },
{
    let o = local_corner(m.region, center);
    let c = choose|c: ((int, int), int, int)|
        #[trigger] is_cover(o.0, o.1, 400, 400, c) && c.1 <= 140 && c.2 <= 140 && body == elevation_body(m, region, c);
    let corner = region_corner(m.region as int);
    let (lx, lz) = (x - corner.0, z - corner.1);
    assert(in_tile_window(o.0, o.1, 400, 400, lx, lz));
    law_cover_holds_every_blend(o.0, o.1, 400, 400, c, lx, lz);
    law_elevation_windows_tell_where_they_are(m, region, c);
    let held = super_of(lx, lz);
    let (row, col) = (held.1 - c.0.1, held.0 - c.0.0);
    law_elevation_window_reads_back(m, region, c, row, col);
    let i = row * c.1 + col;
    assert(0 <= i < c.1 * c.2) by (nonlinear_arith)
        requires
            0 <= row < c.2,
            0 <= col < c.1,
            i == row * c.1 + col,
    ;
    let middle = center_of(c.0.0, c.0.1);
    assert(from_le(body.subrange(10, 14)) == bits32((corner.0 + middle.0) as i32));
}

} // verus!
