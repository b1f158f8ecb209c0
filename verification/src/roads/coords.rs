//! Coordinates of the dense grid cache: regions of the world, small hex tiles
//! in odd-r offset and in axial form, and the super hexes of the terrain.

use vstd::prelude::*;

use crate::int_math::{div_floor, fits_i32, mod_floor};

verus! {

/// Regions along one side of the square world.
pub const REGION_COUNT_SQRT: i32 = 5;

/// Chunks along one side of a region.
pub const CHUNKS_PER_SIDE: i32 = 80;

/// Small tiles along one side of a chunk.
pub const DEFAULT_CHUNK_SIZE: i32 = 96;

/// Small tiles along one side of a region.
pub const REGION_SIDE: i32 = 7680;

/// Super hexes along one side of a region.
pub const SUPER_SIDE: i32 = 2560;

/// Small tiles along one side of a super hex.
pub const SMALL_PER_SUPER: i32 = 3;

/// A tile in odd-r offset coordinates.
#[derive(Debug, Clone, Copy, PartialEq, Eq, Hash, Structural)]
pub struct Hex {
    pub x: i32,
    pub z: i32,
}

/// The number of a region on its maps: the lower half of the number that it has
/// in the fleet.
pub open spec fn map_region(region: u32) -> u16 {
    (region % 0x1_0000) as u16
}

/// Column and row of a region in the grid of regions. Ids start at 1 and run
/// row by row.
pub open spec fn region_cell(id: int) -> (int, int) {
    ((id - 1) % 5, (id - 1) / 5)
}

/// World coordinates of the first tile of a region.
pub open spec fn region_corner(id: int) -> (int, int) {
    (region_cell(id).0 * REGION_SIDE, region_cell(id).1 * REGION_SIDE)
}

/// Whether a tile belongs to the square of a region, with region-local
/// coordinates.
pub open spec fn in_region(lx: int, lz: int) -> bool {
    0 <= lx < REGION_SIDE && 0 <= lz < REGION_SIDE
}

/// Whether region-local super-hex coordinates belong to the region.
pub open spec fn in_super_grid(sx: int, sz: int) -> bool {
    0 <= sx < SUPER_SIDE && 0 <= sz < SUPER_SIDE
}

/// The region that holds a world tile, where the world has one there.
pub open spec fn region_of(x: int, z: int) -> Option<int> {
    if 0 <= x < 5 * REGION_SIDE && 0 <= z < 5 * REGION_SIDE {
        Some((z / REGION_SIDE as int) * 5 + x / REGION_SIDE as int + 1)
    } else {
        None
    }
}

/// Axial form of an odd-r tile: every second row shifts by one column.
pub open spec fn axial(x: int, z: int) -> (int, int) {
    (x - z / 2, z)
}

/// Odd-r form of an axial tile.
pub open spec fn odd_r(q: int, r: int) -> (int, int) {
    (q + r / 2, r)
}

/// An axial offset turned counter-clockwise by `steps` times 60 degrees.
pub open spec fn rotated(q: int, r: int, steps: nat) -> (int, int)
    decreases steps,
{
    if steps == 0 {
        (q, r)
    } else {
        let before = rotated(q, r, (steps - 1) as nat);
        (-before.1, before.0 + before.1)
    }
}

/// World tile that one axial footprint cell covers around the origin tile
/// `(wx, wz)`: rotate, then add in axial form.
pub open spec fn footprint_tile(wx: int, wz: int, direction: int, cell: (i32, i32)) -> (int, int) {
    let origin = axial(wx, wz);
    let turned = rotated(cell.0 as int, cell.1 as int, (direction % 6) as nat);
    odd_r(origin.0 + turned.0, origin.1 + turned.1)
}

/// Nearest integer to a third of `v`. There are no ties.
pub open spec fn nearest_third(v: int) -> int {
    (v + 1) / 3
}

/// The super hex nearest to a small tile, in odd-r form.
pub open spec fn super_of(lx: int, lz: int) -> (int, int) {
    let a = axial(lx, lz);
    odd_r(nearest_third(a.0), nearest_third(a.1))
}

/// Whether three super hexes meet in this tile.
pub open spec fn is_corner(lx: int, lz: int) -> bool {
    let a = axial(lx, lz);
    a.0 % 3 != 0 && a.0 % 3 == a.1 % 3
}

/// The super hexes that blend in a corner tile.
pub open spec fn corner_supers(lx: int, lz: int) -> Seq<(int, int)> {
    let a = axial(lx, lz);
    let q = nearest_third(a.0);
    let r = nearest_third(a.1);
    if a.0 % 3 == 1 {
        seq![odd_r(q, r), odd_r(q + 1, r), odd_r(q, r + 1)]
    } else {
        seq![odd_r(q, r), odd_r(q - 1, r), odd_r(q, r - 1)]
    }
}

/// Small tile in the middle of a super hex. Odd rows sit one tile further
/// right.
pub open spec fn center_of(sx: int, sz: int) -> (int, int) {
    (3 * sx + sz % 2, 3 * sz)
}

/// Column and row of a region in the grid of regions.
pub fn region_rx_rz(id: u16) -> (r: (i32, i32))
    ensures
        (r.0 as int, r.1 as int) == region_cell(id as int),
{
    let idx: i64 = id as i64 - 1;
    (mod_floor(idx, 5) as i32, div_floor(idx, 5) as i32)
}

/// World coordinates of the first tile of a region.
pub fn region_origin(id: u16) -> (r: Hex)
    ensures
        (r.x as int, r.z as int) == region_corner(id as int),
        0 <= r.x <= 30720,
        -7680 <= r.z <= 100_661_760,
{
    let (rx, rz) = region_rx_rz(id);
    Hex::new(rx * REGION_SIDE, rz * REGION_SIDE)
}

impl Hex {
    pub fn new(x: i32, z: i32) -> (r: Self)
        ensures
            r == (Hex { x, z }),
    {
        Hex { x, z }
    }
}

/// odd-r offset `(x, z)` to axial `(q, r)`.
pub fn offset_to_axial(x: i32, z: i32) -> (a: (i32, i32))
    requires
        fits_i32(axial(x as int, z as int).0),
    ensures
        (a.0 as int, a.1 as int) == axial(x as int, z as int),
{
    ((x as i64 - div_floor(z as i64, 2)) as i32, z)
}

/// axial `(q, r)` to odd-r offset `(x, z)`.
pub fn axial_to_offset(q: i32, r: i32) -> (h: Hex)
    requires
        fits_i32(odd_r(q as int, r as int).0),
    ensures
        (h.x as int, h.z as int) == odd_r(q as int, r as int),
{
    Hex::new((q as i64 + div_floor(r as i64, 2)) as i32, r)
}

/// The axial offset `(q, r)` turned counter-clockwise by `steps` times 60
/// degrees. A negative count turns clockwise.
pub fn rotate_ccw_axial(q: i32, r: i32, steps: i32) -> (a: (i32, i32))
    requires
        fits_i32(turned((q as int, r as int), steps as int).0),
        fits_i32(turned((q as int, r as int), steps as int).1),
    ensures
        (a.0 as int, a.1 as int) == turned((q as int, r as int), steps as int),
{
    let n: i64 = mod_floor(steps as i64, 6);
    let mut x: i64 = q as i64;
    let mut z: i64 = r as i64;
    let mut i: i64 = 0;
    while i < n
        invariant
            0 <= i <= n < 6,
            n == steps % 6,
            (x as int, z as int) == rotated(q as int, r as int, i as nat),
            -0x1_0000_0000 <= x <= 0x1_0000_0000,
            -0x1_0000_0000 <= z <= 0x1_0000_0000,
        decreases n - i,
    {
        proof {
            lemma_rotated_closed_form(q as int, r as int);
        }
        let turned: i64 = x + z;
        x = -z;
        z = turned;
        i += 1;
    }
    (x as i32, z as i32)
}

/// World odd-r tiles that an axial footprint covers around the origin tile
/// `(wx, wz)`, in the order of its cells.
pub fn footprint_world_hexes(wx: i32, wz: i32, direction: i32, offsets: &[(i32, i32)]) -> (tiles: Vec<(i32, i32)>)
    requires
        forall|i: int|
            0 <= i < offsets@.len() ==> {
                let t = #[trigger] footprint_tile(wx as int, wz as int, direction as int, offsets@[i]);
                fits_i32(t.0) && fits_i32(t.1)
            },
    ensures
        tiles@.len() == offsets@.len(),
        forall|i: int|
            0 <= i < tiles@.len() ==> (#[trigger] tiles@[i].0 as int, tiles@[i].1 as int) == footprint_tile(
                wx as int,
                wz as int,
                direction as int,
                offsets@[i],
            ),
{
    let mut tiles: Vec<(i32, i32)> = Vec::new();
    let mut i: usize = 0;
    while i < offsets.len()
        invariant
            i <= offsets@.len(),
            tiles@.len() == i,
            forall|j: int|
                0 <= j < offsets@.len() ==> {
                    let t = #[trigger] footprint_tile(wx as int, wz as int, direction as int, offsets@[j]);
                    fits_i32(t.0) && fits_i32(t.1)
                },
            forall|j: int|
                0 <= j < i ==> (#[trigger] tiles@[j].0 as int, tiles@[j].1 as int) == footprint_tile(
                    wx as int,
                    wz as int,
                    direction as int,
                    offsets@[j],
                ),
        decreases offsets.len() - i,
    {
        let tile = footprint_hex(wx, wz, direction, offsets[i]);
        tiles.push(tile);
        i += 1;
    }
    tiles
}

/// World tile that one footprint cell covers.
pub fn footprint_hex(wx: i32, wz: i32, direction: i32, cell: (i32, i32)) -> (t: (i32, i32))
    requires
        fits_i32(footprint_tile(wx as int, wz as int, direction as int, cell).0),
        fits_i32(footprint_tile(wx as int, wz as int, direction as int, cell).1),
    ensures
        (t.0 as int, t.1 as int) == footprint_tile(wx as int, wz as int, direction as int, cell),
{
    let (q, r) = footprint_axial(wx, wz, direction, cell);
    ((q + div_floor(r, 2)) as i32, r as i32)
}

/// Axial form of [`footprint_hex`], in a width that no input overflows.
fn footprint_axial(wx: i32, wz: i32, direction: i32, cell: (i32, i32)) -> (a: (i64, i64))
    ensures
        odd_r(a.0 as int, a.1 as int) == footprint_tile(wx as int, wz as int, direction as int, cell),
        -0x4_0000_0000 <= a.0 <= 0x4_0000_0000,
        -0x4_0000_0000 <= a.1 <= 0x4_0000_0000,
{
    let q: i64 = cell.0 as i64;
    let r: i64 = cell.1 as i64;
    let n: i64 = mod_floor(direction as i64, 6);
    proof {
        lemma_rotated_closed_form(q as int, r as int);
    }
    let (tq, tr): (i64, i64) = if n == 0 {
        (q, r)
    } else if n == 1 {
        (-r, q + r)
    } else if n == 2 {
        (-q - r, q)
    } else if n == 3 {
        (-q, -r)
    } else if n == 4 {
        (r, -q - r)
    } else {
        (q + r, -q)
    };
    (wx as i64 - div_floor(wz as i64, 2) + tq, wz as i64 + tr)
}

/// Whether a footprint cell around a tile has coordinates in `i32`, and the
/// tile it covers in that case.
pub fn footprint_hex_checked(wx: i32, wz: i32, direction: i32, cell: (i32, i32)) -> (t: Option<(i32, i32)>)
    ensures
        ({
            let tile = footprint_tile(wx as int, wz as int, direction as int, cell);
            match t {
                Some(p) => (p.0 as int, p.1 as int) == tile,
                None => !(fits_i32(tile.0) && fits_i32(tile.1)),
            }
        }),
{
    let (q, r) = footprint_axial(wx, wz, direction, cell);
    let x: i64 = q + div_floor(r, 2);
    if i32::MIN as i64 <= x && x <= i32::MAX as i64 && i32::MIN as i64 <= r && r <= i32::MAX as i64 {
        Some((x as i32, r as i32))
    } else {
        None
    }
}

/// Index of a region-local tile in the dense overlay, row by row; `None` off
/// the region.
pub fn overlay_index(lx: i32, lz: i32) -> (r: Option<usize>)
    ensures
        match r {
            Some(i) => in_region(lx as int, lz as int) && i == lz * REGION_SIDE + lx && i < REGION_SIDE * REGION_SIDE,
            None => !in_region(lx as int, lz as int),
        },
{
    if lx < 0 || lx >= REGION_SIDE || lz < 0 || lz >= REGION_SIDE {
        return None;
    }
    assert(REGION_SIDE == 7680);
    Some(lz as usize * 7680 + lx as usize)
}

/// Index of a region-local super hex in the dense terrain, row by row; `None`
/// off the region.
pub fn terrain_index(super_x: i32, super_z: i32) -> (r: Option<usize>)
    ensures
        match r {
            Some(i) => in_super_grid(super_x as int, super_z as int) && i == super_z * SUPER_SIDE + super_x && i
                < SUPER_SIDE * SUPER_SIDE,
            None => !in_super_grid(super_x as int, super_z as int),
        },
{
    if super_x < 0 || super_x >= SUPER_SIDE || super_z < 0 || super_z >= SUPER_SIDE {
        return None;
    }
    assert(SUPER_SIDE == 2560);
    Some(super_z as usize * 2560 + super_x as usize)
}

/// World tile to the id of the region that holds it; `None` off the world.
pub fn world_to_region(x: i32, z: i32) -> (r: Option<u16>)
    ensures
        match r {
            Some(id) => region_of(x as int, z as int) == Some(id as int) && 1 <= id <= 25,
            None => region_of(x as int, z as int) is None,
        },
{
    let rx: i64 = div_floor(x as i64, REGION_SIDE as i64);
    let rz: i64 = div_floor(z as i64, REGION_SIDE as i64);
    if rx < 0 || rx >= REGION_COUNT_SQRT as i64 || rz < 0 || rz >= REGION_COUNT_SQRT as i64 {
        return None;
    }
    assert(REGION_COUNT_SQRT == 5);
    Some((rz * 5 + rx + 1) as u16)
}

/// World tile to region-local coordinates; `None` off the region.
pub fn world_to_local(region: u16, x: i32, z: i32) -> (r: Option<(i32, i32)>)
    ensures
        ({
            let corner = region_corner(region as int);
            match r {
                Some(l) => l.0 == x - corner.0 && l.1 == z - corner.1 && in_region(l.0 as int, l.1 as int),
                None => !in_region(x - corner.0, z - corner.1),
            }
        }),
{
    let origin = region_origin(region);
    let lx: i64 = x as i64 - origin.x as i64;
    let lz: i64 = z as i64 - origin.z as i64;
    if lx < 0 || lx >= REGION_SIDE as i64 || lz < 0 || lz >= REGION_SIDE as i64 {
        return None;
    }
    Some((lx as i32, lz as i32))
}

/// Nearest integer to a third of `v`.
fn round_div3(v: i64) -> (r: i64)
    requires
        v < i64::MAX,
    ensures
        r == nearest_third(v as int),
{
    div_floor(v + 1, 3)
}

/// Region-local tile to the super hex that owns it, in super odd-r
/// coordinates. Super hexes form a hex lattice of three times the tile scale,
/// not square blocks of tiles. A corner tile goes to the nearest of its three.
pub fn small_to_super(lx: i32, lz: i32) -> (s: (i32, i32))
    ensures
        (s.0 as int, s.1 as int) == super_of(lx as int, lz as int),
        -1_500_000_000 <= s.0 <= 1_500_000_000,
        -750_000_000 <= s.1 <= 750_000_000,
{
    let q: i64 = round_div3(lx as i64 - div_floor(lz as i64, 2));
    let r: i64 = round_div3(lz as i64);
    axial_super(q, r)
}

/// Whether three super hexes meet in a tile: its axial coordinates are both
/// one more, or both one less, than a multiple of three.
pub fn small_is_corner(lx: i32, lz: i32) -> (r: bool)
    ensures
        r <==> is_corner(lx as int, lz as int),
{
    let q: i64 = mod_floor(lx as i64 - div_floor(lz as i64, 2), 3);
    q != 0 && q == mod_floor(lz as i64, 3)
}

/// The three super hexes that a corner tile blends, the nearest one first.
pub fn small_corner_supers(lx: i32, lz: i32) -> (s: [(i32, i32); 3])
    ensures
        forall|i: int|
            0 <= i < 3 ==> (#[trigger] s@[i].0 as int, s@[i].1 as int) == corner_supers(lx as int, lz as int)[i],
{
    let q: i64 = lx as i64 - div_floor(lz as i64, 2);
    let q0: i64 = round_div3(q);
    let r0: i64 = round_div3(lz as i64);
    if mod_floor(q, 3) == 1 {
        [axial_super(q0, r0), axial_super(q0 + 1, r0), axial_super(q0, r0 + 1)]
    } else {
        [axial_super(q0, r0), axial_super(q0 - 1, r0), axial_super(q0, r0 - 1)]
    }
}

/// Axial super hex to odd-r form.
fn axial_super(q: i64, r: i64) -> (s: (i32, i32))
    requires
        -1_100_000_000 <= q <= 1_100_000_000,
        -720_000_000 <= r <= 720_000_000,
    ensures
        (s.0 as int, s.1 as int) == odd_r(q as int, r as int),
        -1_500_000_000 <= s.0 <= 1_500_000_000,
        -750_000_000 <= s.1 <= 750_000_000,
{
    ((q + div_floor(r, 2)) as i32, r as i32)
}

/// Super hex to the small tile in its middle.
pub fn super_center_tile(sx: i32, sz: i32) -> (t: (i32, i32))
    requires
        fits_i32(center_of(sx as int, sz as int).0),
        fits_i32(center_of(sx as int, sz as int).1),
    ensures
        (t.0 as int, t.1 as int) == center_of(sx as int, sz as int),
{
    (
        (sx as i64 * SMALL_PER_SUPER as i64 + mod_floor(sz as i64, 2)) as i32,
        (sz as i64 * SMALL_PER_SUPER as i64) as i32,
    )
}

/// The six rotations of an axial offset, written out.
pub proof fn lemma_rotated_closed_form(q: int, r: int)
    ensures
        rotated(q, r, 0) == (q, r),
        rotated(q, r, 1) == (-r, q + r),
        rotated(q, r, 2) == (-q - r, q),
        rotated(q, r, 3) == (-q, -r),
        rotated(q, r, 4) == (r, -q - r),
        rotated(q, r, 5) == (q + r, -q),
        rotated(q, r, 6) == (q, r),
{
    reveal_with_fuel(rotated, 7);
}

/// Odd-r to axial and back gives the tile again, and so does axial to odd-r
/// and back.
pub proof fn law_axial_round_trip(x: int, z: int)
    ensures
        odd_r(axial(x, z).0, axial(x, z).1) == (x, z),
        axial(odd_r(x, z).0, odd_r(x, z).1) == (x, z),
{
}

/// The larger of a number and its opposite.
pub open spec fn magnitude(v: int) -> int {
    if v < 0 {
        -v
    } else {
        v
    }
}

/// The number of steps from the origin to an axial offset: the largest of its
/// three cube coordinates, without their signs.
pub open spec fn hex_distance(q: int, r: int) -> int {
    let (a, b, c) = (magnitude(q), magnitude(r), magnitude(q + r));
    if a >= b && a >= c {
        a
    } else if b >= c {
        b
    } else {
        c
    }
}

/// Six rotations by 60 degrees give the offset again, and a rotation keeps
/// the distance from the origin.
pub proof fn law_rotation_has_order_six(q: int, r: int, steps: nat)
    ensures
        rotated(q, r, steps + 6) == rotated(q, r, steps),
        hex_distance(rotated(q, r, steps).0, rotated(q, r, steps).1) == hex_distance(q, r),
    decreases steps,
{
    if steps == 0 {
        lemma_rotated_closed_form(q, r);
    } else {
        law_rotation_has_order_six(q, r, (steps - 1) as nat);
        assert(rotated(q, r, steps + 6) == {
            let before = rotated(q, r, (steps + 6 - 1) as nat);
            (-before.1, before.0 + before.1)
        });
        assert((steps + 6 - 1) as nat == (steps - 1) as nat + 6);
    }
}

/// An axial offset turned by a number of steps in either direction: steps are
/// counted modulo six.
pub open spec fn turned(p: (int, int), steps: int) -> (int, int) {
    rotated(p.0, p.1, (steps % 6) as nat)
}

/// Turning by `a` steps and then by `b` is turning by `a + b`, backward turns
/// too. No step changes nothing, one takes `(q, r)` to `(-r, q + r)`, six are
/// none; a turn is undone by the opposite one, and keeps the distance from the
/// origin.
pub proof fn law_turns_add_up(p: (int, int), a: int, b: int)
    ensures
        turned(p, 0) == p,
        turned(p, 1) == (-p.1, p.0 + p.1),
        turned(turned(p, a), b) == turned(p, a + b),
        turned(p, a + 6) == turned(p, a),
        turned(p, 6) == p,
        turned(p, 5) == turned(p, -1),
        turned(turned(p, a), -a) == p,
        hex_distance(turned(p, a).0, turned(p, a).1) == hex_distance(p.0, p.1),
{
    lemma_turns_add_up(p, a, b);
    lemma_turns_add_up(p, a, -a);
    lemma_rotated_closed_form(p.0, p.1);
    law_rotation_has_order_six(p.0, p.1, (a % 6) as nat);
    assert((a + 6) % 6 == a % 6);
}

/// Turning by `a` steps and then by `b` is turning by `a + b`.
proof fn lemma_turns_add_up(p: (int, int), a: int, b: int)
    ensures
        turned(turned(p, a), b) == turned(p, a + b),
{
    let (n, m) = (a % 6, b % 6);
    let one = turned(p, a);
    lemma_rotated_closed_form(p.0, p.1);
    lemma_rotated_closed_form(one.0, one.1);
    assert((a + b) % 6 == if n + m < 6 {
        n + m
    } else {
        n + m - 6
    });
    assert(n == 0 || n == 1 || n == 2 || n == 3 || n == 4 || n == 5);
    assert(m == 0 || m == 1 || m == 2 || m == 3 || m == 4 || m == 5);
}

/// Distinct footprint cells cover distinct tiles.
pub proof fn law_footprint_tiles_are_distinct(wx: int, wz: int, direction: int, a: (i32, i32), b: (i32, i32))
    ensures
        footprint_tile(wx, wz, direction, a) == footprint_tile(wx, wz, direction, b) ==> a == b,
{
    lemma_rotated_closed_form(a.0 as int, a.1 as int);
    lemma_rotated_closed_form(b.0 as int, b.1 as int);
    let n = direction % 6;
    assert(n == 0 || n == 1 || n == 2 || n == 3 || n == 4 || n == 5);
}

/// Footprint cell `(0, 0)` covers the origin tile in every direction.
pub proof fn law_footprint_origin(wx: int, wz: int, direction: int)
    ensures
        footprint_tile(wx, wz, direction, (0i32, 0i32)) == (wx, wz),
{
    lemma_rotated_closed_form(0, 0);
    let n = direction % 6;
    assert(n == 0 || n == 1 || n == 2 || n == 3 || n == 4 || n == 5);
}

/// The middle tile of a super hex belongs to that super hex.
pub proof fn law_super_center_round_trip(sx: int, sz: int)
    ensures
        super_of(center_of(sx, sz).0, center_of(sx, sz).1) == (sx, sz),
{
}

/// The super column of a tile repeats every six rows, where the super row
/// moves on by two.
pub proof fn law_super_column_period(lx: int, lz: int)
    ensures
        super_of(lx, lz + 6) == (super_of(lx, lz).0, super_of(lx, lz).1 + 2),
{
    let a = axial(lx, lz);
    let b = axial(lx, lz + 6);
    assert(b.0 == a.0 - 3);
    assert(b.1 == a.1 + 6);
    assert(nearest_third(b.0) == nearest_third(a.0) - 1);
    assert(nearest_third(b.1) == nearest_third(a.1) + 2);
}

/// The super column of a tile grows with the tile's column and the super row
/// with the tile's row.
pub proof fn law_super_monotone(x1: int, x2: int, z1: int, z2: int)
    requires
        x1 <= x2,
        z1 <= z2,
    ensures
        super_of(x1, z1).0 <= super_of(x2, z1).0,
        super_of(x1, z1).1 <= super_of(x1, z2).1,
        super_of(x1, z1).1 == super_of(x2, z1).1,
{
}

/// Number of steps from a tile to the middle of a super hex.
pub open spec fn steps_to_super(lx: int, lz: int, s: (int, int)) -> int {
    let t = axial(lx, lz);
    let c = axial(center_of(s.0, s.1).0, center_of(s.0, s.1).1);
    hex_distance(t.0 - c.0, t.1 - c.1)
}

/// The middle tile of a super hex in axial form.
proof fn lemma_center_axial(s: (int, int))
    ensures
        axial(center_of(s.0, s.1).0, center_of(s.0, s.1).1) == (3 * axial(s.0, s.1).0, 3 * s.1),
{
}

/// A tile that is no corner belongs to the super hex whose middle it is or
/// neighbours, and to no other: a super hex owns its middle tile and the six
/// around it. A corner tile goes to a super hex two steps away, and none is
/// nearer.
pub proof fn law_tiles_belong_to_the_nearest_super(lx: int, lz: int, s: (int, int))
    ensures
        !is_corner(lx, lz) ==> steps_to_super(lx, lz, super_of(lx, lz)) <= 1,
        !is_corner(lx, lz) ==> (steps_to_super(lx, lz, s) <= 1 <==> s == super_of(lx, lz)),
        is_corner(lx, lz) ==> steps_to_super(lx, lz, super_of(lx, lz)) == 2,
        is_corner(lx, lz) ==> steps_to_super(lx, lz, s) >= 2,
{
    let (q, r) = axial(lx, lz);
    let o = super_of(lx, lz);
    let (oq, or) = axial(o.0, o.1);
    let (sq, sr) = axial(s.0, s.1);
    assert((oq, or) == (nearest_third(q), nearest_third(r)));
    lemma_center_axial(o);
    lemma_center_axial(s);
    let (dq, dr) = (q - 3 * oq, r - 3 * or);
    assert(-1 <= dq <= 1 && -1 <= dr <= 1);
    assert(q % 3 == dq % 3 && r % 3 == dr % 3);
    let (kq, kr) = (oq - sq, or - sr);
    assert(steps_to_super(lx, lz, s) == hex_distance(dq + 3 * kq, dr + 3 * kr));
    assert(steps_to_super(lx, lz, o) == hex_distance(dq, dr));
    if kq == 0 && kr == 0 {
        assert(s == o) by {
            assert(odd_r(sq, sr) == s);
            assert(odd_r(oq, or) == o);
        }
    }
}

/// The three super hexes of a corner tile are distinct, the nearest super hex
/// is one of them, and they are just those whose middle is two steps away.
pub proof fn law_corner_supers(lx: int, lz: int)
    ensures
        corner_supers(lx, lz).len() == 3,
        corner_supers(lx, lz)[0] == super_of(lx, lz),
        corner_supers(lx, lz).no_duplicates(),
        is_corner(lx, lz) ==> forall|s: (int, int)| #[trigger]
            corner_supers(lx, lz).contains(s) <==> steps_to_super(lx, lz, s) == 2,
{
    let c = corner_supers(lx, lz);
    if is_corner(lx, lz) {
        assert forall|s: (int, int)| #[trigger] c.contains(s) <==> steps_to_super(lx, lz, s) == 2 by {
            lemma_corner_super(lx, lz, s);
            if c.contains(s) {
                let i = choose|i: int| 0 <= i < c.len() && c[i] == s;
                assert(i == 0 || i == 1 || i == 2);
            }
            if s == c[0] || s == c[1] || s == c[2] {
                assert(c.contains(s));
            }
        }
    }
}

/// A super hex blends in a corner tile just if its middle is two steps away.
proof fn lemma_corner_super(lx: int, lz: int, s: (int, int))
    requires
        is_corner(lx, lz),
    ensures
        s == corner_supers(lx, lz)[0] || s == corner_supers(lx, lz)[1] || s == corner_supers(lx, lz)[2]
            <==> steps_to_super(lx, lz, s) == 2,
{
    let (q, r) = axial(lx, lz);
    let (oq, or) = (nearest_third(q), nearest_third(r));
    let (sq, sr) = axial(s.0, s.1);
    lemma_center_axial(s);
    assert(odd_r(sq, sr) == s);
    let (dq, dr) = (q - 3 * oq, r - 3 * or);
    let (kq, kr) = (oq - sq, or - sr);
    assert(dq == dr && (dq == 1 || dq == -1));
    assert(steps_to_super(lx, lz, s) == hex_distance(dq + 3 * kq, dr + 3 * kr));
    if dq == 1 {
        assert(hex_distance(dq + 3 * kq, dr + 3 * kr) == 2 <==> (kq, kr) == (0int, 0int) || (kq, kr) == (-1int, 0int)
            || (kq, kr) == (0int, -1int));
    } else {
        assert(hex_distance(dq + 3 * kq, dr + 3 * kr) == 2 <==> (kq, kr) == (0int, 0int) || (kq, kr) == (1int, 0int)
            || (kq, kr) == (0int, 1int));
    }
}

/// A tile at region-local `(lx, lz)` of a region of the world lies in that
/// region, and in no other.
pub proof fn law_region_round_trip(id: int, lx: int, lz: int)
    requires
        1 <= id <= 25,
        in_region(lx, lz),
    ensures
        region_of(region_corner(id).0 + lx, region_corner(id).1 + lz) == Some(id),
{
    let (rx, rz) = region_cell(id);
    assert((rx * 7680 + lx) / 7680 == rx);
    assert((rz * 7680 + lz) / 7680 == rz);
}

/// Every tile of the world has region-local coordinates in the region that
/// holds it.
pub proof fn law_world_tile_is_local(x: int, z: int)
    ensures
        match region_of(x, z) {
            Some(id) => 1 <= id <= 25 && in_region(x - region_corner(id).0, z - region_corner(id).1),
            None => forall|id: int, lx: int, lz: int|
                1 <= id <= 25 && #[trigger] in_region(lx, lz) ==> (#[trigger] region_corner(id).0 + lx, region_corner(id).1 + lz)
                    != (x, z),
        },
{
    if region_of(x, z) is None {
        assert forall|id: int, lx: int, lz: int|
            1 <= id <= 25 && #[trigger] in_region(lx, lz) implies (#[trigger] region_corner(id).0 + lx, region_corner(
            id,
        ).1 + lz) != (x, z) by {
            law_region_round_trip(id, lx, lz);
        }
    }
}

/// A cell of a footprint lies as far from the origin tile as the footprint says,
/// turned by one step for each step of the direction. Both tiles are taken in
/// axial form, where every second row shifts by one column.
pub proof fn law_footprints_turn_with_their_direction(wx: int, wz: int, direction: int, cell: (i32, i32))
    ensures
        ({
            let (x, z) = footprint_tile(wx, wz, direction, cell);
            ((x - z / 2) - (wx - wz / 2), z - wz) == turned((cell.0 as int, cell.1 as int), direction)
        }),
        ({
            let (x, z) = footprint_tile(wx, wz, direction, cell);
            let (x2, z2) = footprint_tile(wx, wz, direction + 1, cell);
            let (q, r) = ((x - z / 2) - (wx - wz / 2), z - wz);
            ((x2 - z2 / 2) - (wx - wz / 2), z2 - wz) == (-r, q + r)
        }),
        footprint_tile(wx, wz, 0, (0, 0)) == (wx, wz),
        footprint_tile(wx, wz, 0, (1, 0)) == (wx + 1, wz),
{
    let p = (cell.0 as int, cell.1 as int);
    law_turns_add_up(p, direction, 1);
    law_turns_add_up(turned(p, direction), 0, 0);
}

/// The regions of the world lie in five rows of five, from the first on row by
/// row, each 7680 tiles wide and high.
pub proof fn law_regions_lie_row_by_row(column: int, row: int)
    requires
        0 <= column < 5,
        0 <= row < 5,
    ensures
        region_corner(row * 5 + column + 1) == (column * 7680, row * 7680),
        region_of(column * 7680, row * 7680) == Some(row * 5 + column + 1),
        region_of(-1, row * 7680) is None && region_of(column * 7680, -1) is None,
        region_of(38_400, row * 7680) is None && region_of(column * 7680, 38_400) is None,
{
}

} // verus!
