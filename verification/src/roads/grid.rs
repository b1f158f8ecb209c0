//! Dense terrain and overlay grids of one region.

use vstd::prelude::*;

use super::coords::{in_region, in_super_grid, overlay_index, terrain_index, REGION_SIDE, SUPER_SIDE};
use crate::le_bytes::{
    bits16, from_le, i16_bits, i16_of_bits, law_le_round_trip, lemma_u64s_le_at, lemma_u64s_le_len, pow256, push_le,
    push_u32_le, signed16, u32s_le, u64s_le,
};

verus! {

/// Bytes of the terrain plane of a region.
pub const TERRAIN_BYTES: usize = 52_428_800;

/// Bytes of the overlay plane of a region.
pub const OVERLAY_BYTES: usize = 235_929_600;

/// Super hexes of a region.
pub const TERRAIN_CELLS: usize = 6_553_600;

/// Tiles of a region.
pub const OVERLAY_CELLS: usize = 58_982_400;

/// A terrain cell: elevation, original elevation and water level as 16-bit
/// patterns from the lowest bits up, then the water body type.
pub open spec fn terrain_word(elev: i16, orig: i16, water: i16, wbt: u8) -> nat {
    bits16(elev) + 0x1_0000 * bits16(orig) + 0x1_0000_0000 * bits16(water) + 0x1_0000_0000_0000 * wbt as nat
}

/// Elevation of a terrain cell.
pub open spec fn terrain_elevation(packed: u64) -> int {
    signed16((packed % 0x1_0000) as nat)
}

/// Water level of a terrain cell.
pub open spec fn terrain_water_level(packed: u64) -> int {
    signed16((packed / 0x1_0000_0000 % 0x1_0000) as nat)
}

/// Paving of an overlay cell: the low half.
pub open spec fn paving_of(cell: u32) -> u16 {
    (cell % 0x1_0000) as u16
}

/// Claim index of an overlay cell: the high half.
pub open spec fn claim_of(cell: u32) -> u16 {
    (cell / 0x1_0000) as u16
}

/// Packs a terrain cell.
pub fn pack_terrain(elev: i16, orig: i16, water: i16, wbt: u8) -> (r: u64)
    ensures
        r == terrain_word(elev, orig, water, wbt),
{
    i16_bits(elev) as u64 + 0x1_0000 * i16_bits(orig) as u64 + 0x1_0000_0000 * i16_bits(water) as u64
        + 0x1_0000_0000_0000 * wbt as u64
}

/// Elevation and water level of a terrain cell. A tile is under water when
/// the elevation is below the water level.
pub fn unpack_terrain_water(packed: u64) -> (r: (i16, i16))
    ensures
        r.0 == terrain_elevation(packed),
        r.1 == terrain_water_level(packed),
{
    (i16_of_bits((packed % 0x1_0000) as u16), i16_of_bits((packed / 0x1_0000_0000 % 0x1_0000) as u16))
}

/// Packs an overlay cell.
pub fn pack_overlay(claim_index: u16, paving: u16) -> (r: u32)
    ensures
        paving_of(r) == paving,
        claim_of(r) == claim_index,
{
    paving as u32 + 0x1_0000 * claim_index as u32
}

/// Sets the paving of a cell and keeps its claim index.
pub fn set_paving(cell: &mut u32, paving: u16)
    ensures
        paving_of(*final(cell)) == paving,
        claim_of(*final(cell)) == claim_of(*old(cell)),
{
    *cell = pack_overlay(get_claim_index(*cell), paving);
}

/// Sets the claim index of a cell and keeps its paving.
pub fn set_claim_index(cell: &mut u32, idx: u16)
    ensures
        claim_of(*final(cell)) == idx,
        paving_of(*final(cell)) == paving_of(*old(cell)),
{
    *cell = pack_overlay(idx, get_paving(*cell));
}

/// Paving of a cell.
pub fn get_paving(cell: u32) -> (r: u16)
    ensures
        r == paving_of(cell),
{
    (cell % 0x1_0000) as u16
}

/// Claim index of a cell.
pub fn get_claim_index(cell: u32) -> (r: u16)
    ensures
        r == claim_of(cell),
{
    (cell / 0x1_0000) as u16
}

/// Packed terrain, one cell for each super hex of the region.
pub struct SuperHexTerrainGrid {
    cells: Vec<u64>,
}

/// The cell of a super hex; zero off the region.
pub open spec fn terrain_at(words: Seq<u64>, sx: int, sz: int) -> u64 {
    if in_super_grid(sx, sz) {
        words[sz * SUPER_SIDE + sx]
    } else {
        0
    }
}

/// Cells of a window of the terrain, row by row.
pub open spec fn terrain_window(grid: SuperHexTerrainGrid, origin: (int, int), width: int, height: int) -> Seq<u64> {
    Seq::new((width * height) as nat, |i: int| grid.at(origin.0 + i % width, origin.1 + i / width))
}

/// The cell that the bytes of a window of some width hold for a row and a
/// column.
pub open spec fn cell_in(bytes: Seq<u8>, width: int, row: int, col: int) -> nat {
    from_le(bytes.subrange(8 * (row * width + col), 8 * (row * width + col) + 8))
}

/// Whether bytes are a window of the terrain: who reads the cell for a row and
/// a column has the terrain there, or zero off the region.
pub open spec fn shows_terrain(
    bytes: Seq<u8>,
    grid: SuperHexTerrainGrid,
    origin: (int, int),
    width: int,
    height: int,
) -> bool {
    &&& bytes.len() == 8 * (width * height)
    &&& forall|row: int, col: int|
        0 <= row < height && 0 <= col < width ==> #[trigger] cell_in(bytes, width, row, col) == grid.at(
            origin.0 + col,
            origin.1 + row,
        )
}

impl SuperHexTerrainGrid {
    /// One cell for each super hex.
    pub closed spec fn wf(&self) -> bool {
        self.cells@.len() == TERRAIN_CELLS
    }

    /// All cells, row by row.
    pub closed spec fn words(&self) -> Seq<u64> {
        self.cells@
    }

    /// The cell of a super hex; zero off the region.
    pub open spec fn at(&self, sx: int, sz: int) -> u64 {
        terrain_at(self.words(), sx, sz)
    }

    /// Number of cells.
    pub proof fn lemma_size(&self)
        ensures
            self.wf() <==> self.words().len() == TERRAIN_CELLS,
    {
    }

    /// A grid of zeros.
    pub fn new() -> (r: Self)
        ensures
            r.wf(),
            forall|sx: int, sz: int| r.at(sx, sz) == 0,
            r.words() == Seq::new(TERRAIN_CELLS as nat, |i: int| 0u64),
    {
        let cells: Vec<u64> = vec![0u64; TERRAIN_CELLS];
        assert(cells@ =~= Seq::new(TERRAIN_CELLS as nat, |i: int| 0u64));
        SuperHexTerrainGrid { cells }
    }

    /// The whole plane as bytes, eight for each cell.
    pub fn as_bytes(&self) -> (r: Vec<u8>)
        ensures
            r@ == u64s_le(self.words()),
    {
        let mut out: Vec<u8> = Vec::with_capacity(8 * TERRAIN_CELLS);
        let mut i: usize = 0;
        while i < self.cells.len()
            invariant
                i <= self.cells@.len(),
                out@ == u64s_le(self.cells@.take(i as int)),
            decreases self.cells.len() - i,
        {
            push_le(&mut out, self.cells[i], 8);
            assert(self.cells@.take(i + 1).drop_last() =~= self.cells@.take(i as int));
            i += 1;
        }
        assert(self.cells@.take(i as int) =~= self.cells@);
        out
    }

    /// Sets a cell; off the region nothing happens.
    pub fn set(&mut self, super_x: i32, super_z: i32, value: u64)
        requires
            old(self).wf(),
        ensures
            final(self).wf(),
            forall|sx: int, sz: int| #[trigger]
                final(self).at(sx, sz) == if (sx, sz) == (super_x as int, super_z as int) && in_super_grid(sx, sz) {
                    value
                } else {
                    old(self).at(sx, sz)
                },
            final(self).words() == if in_super_grid(super_x as int, super_z as int) {
                old(self).words().update(super_z * SUPER_SIDE + super_x, value)
            } else {
                old(self).words()
            },
    {
        if let Some(idx) = terrain_index(super_x, super_z) {
            self.cells.set(idx, value);
        }
    }

    /// The cell of a super hex; zero off the region.
    pub fn get(&self, super_x: i32, super_z: i32) -> (r: u64)
        requires
            self.wf(),
        ensures
            r == self.at(super_x as int, super_z as int),
    {
        match terrain_index(super_x, super_z) {
            Some(idx) => self.cells[idx],
            None => 0,
        }
    }

    /// Square window of `side` by `side` cells; see [`Self::window_rect`].
    pub fn window(&self, origin: (i32, i32), side: usize) -> (r: Vec<u8>)
        requires
            self.wf(),
            side <= i32::MAX,
            side * side <= usize::MAX,
        ensures
            r@ == u64s_le(terrain_window(*self, (origin.0 as int, origin.1 as int), side as int, side as int)),
            shows_terrain(r@, *self, (origin.0 as int, origin.1 as int), side as int, side as int),
    {
        self.window_rect(origin, side, side)
    }

    /// Window of `width` by `height` cells as bytes, row by row, from the
    /// region-local super hex `origin`, which may lie off the region: such
    /// cells are zero.
    pub fn window_rect(&self, origin: (i32, i32), width: usize, height: usize) -> (r: Vec<u8>)
        requires
            self.wf(),
            width <= i32::MAX,
            height <= i32::MAX,
            width * height <= usize::MAX,
        ensures
            r@ == u64s_le(terrain_window(*self, (origin.0 as int, origin.1 as int), width as int, height as int)),
            shows_terrain(r@, *self, (origin.0 as int, origin.1 as int), width as int, height as int),
    {
        let ghost o = (origin.0 as int, origin.1 as int);
        let ghost all = terrain_window(*self, o, width as int, height as int);
        let mut out: Vec<u8> = Vec::new();
        let mut row: usize = 0;
        assert(all.take(0) =~= Seq::<u64>::empty());
        while row < height
            invariant
                self.wf(),
                row <= height <= i32::MAX,
                width <= i32::MAX,
                o == (origin.0 as int, origin.1 as int),
                all == terrain_window(*self, o, width as int, height as int),
                0 <= row * width <= all.len(),
                out@ == u64s_le(all.take(row * width)),
            decreases height - row,
        {
            let mut col: usize = 0;
            proof {
                lemma_row_start(row as int, width as int, height as int);
            }
            while col < width
                invariant
                    self.wf(),
                    row < height <= i32::MAX,
                    col <= width <= i32::MAX,
                    o == (origin.0 as int, origin.1 as int),
                    all == terrain_window(*self, o, width as int, height as int),
                    0 <= row * width,
                    row * width + width <= all.len(),
                    out@ == u64s_le(all.take(row * width + col)),
                decreases width - col,
            {
                let word: u64 = self.get_wide(origin.0 as i64 + col as i64, origin.1 as i64 + row as i64);
                push_le(&mut out, word, 8);
                proof {
                    let k = row * width + col;
                    lemma_row_index(row as int, col as int, width as int);
                    assert(all[k] == word);
                    assert(all.take(k + 1).drop_last() =~= all.take(k));
                }
                col += 1;
            }
            proof {
                assert((row + 1) * width == row * width + width) by (nonlinear_arith);
            }
            row += 1;
        }
        assert(all.take(height * width) =~= all) by {
            assert(height * width == width * height) by (nonlinear_arith);
        }
        proof {
            law_terrain_window_reads_back(*self, o, width as int, height as int);
        }
        out
    }

    /// [`Self::get`] for coordinates past the range of `i32`.
    fn get_wide(&self, sx: i64, sz: i64) -> (r: u64)
        requires
            self.wf(),
        ensures
            r == self.at(sx as int, sz as int),
    {
        if sx < 0 || sx >= SUPER_SIDE as i64 || sz < 0 || sz >= SUPER_SIDE as i64 {
            0
        } else {
            self.get(sx as i32, sz as i32)
        }
    }
}

/// A full row below the last one ends inside the window.
pub proof fn lemma_row_start(row: int, width: int, height: int)
    requires
        0 <= row < height,
        0 <= width,
    ensures
        0 <= row * width,
        row * width + width <= width * height,
{
    assert(row * width + width <= width * height && 0 <= row * width) by (nonlinear_arith)
        requires
            0 <= row < height,
            0 <= width,
    ;
}

/// Row and column of the cell `col` of row `row`.
pub proof fn lemma_row_index(row: int, col: int, width: int)
    requires
        0 <= row,
        0 <= col < width,
    ensures
        (row * width + col) / width == row,
        (row * width + col) % width == col,
{
    vstd::arithmetic::div_mod::lemma_fundamental_div_mod_converse(row * width + col, width, row, col);
}

/// Who reads the cell for a row and a column out of a window of the terrain has
/// the terrain there. Off the region, on whatever side, it is zero.
pub proof fn law_terrain_window_reads_back(grid: SuperHexTerrainGrid, origin: (int, int), width: int, height: int)
    requires
        0 <= width,
        0 <= height,
    ensures
        shows_terrain(u64s_le(terrain_window(grid, origin, width, height)), grid, origin, width, height),
        forall|sx: int, sz: int| !in_super_grid(sx, sz) ==> #[trigger] grid.at(sx, sz) == 0,
{
    let cells = terrain_window(grid, origin, width, height);
    assert(0 <= width * height) by (nonlinear_arith)
        requires
            0 <= width,
            0 <= height,
    ;
    lemma_u64s_le_len(cells);
    assert forall|row: int, col: int| 0 <= row < height && 0 <= col < width implies #[trigger] cell_in(
        u64s_le(cells),
        width,
        row,
        col,
    ) == grid.at(origin.0 + col, origin.1 + row) by {
        lemma_row_start(row, width, height);
        lemma_row_index(row, col, width);
        let i = row * width + col;
        lemma_u64s_le_at(cells, i);
        assert(pow256(8) == 0x1_0000_0000_0000_0000) by {
            reveal_with_fuel(pow256, 9);
        }
        law_le_round_trip(cells[i] as nat, 8);
    }
}

impl Default for SuperHexTerrainGrid {
    fn default() -> (r: Self)
        ensures
            r.wf(),
            forall|sx: int, sz: int| r.at(sx, sz) == 0,
    {
        SuperHexTerrainGrid::new()
    }
}

/// Paving and claim index, one cell for each tile of the region.
pub struct TileOverlayGrid {
    cells: Vec<u32>,
}

/// Number of cells with a paving.
pub open spec fn paved_count(cells: Seq<u32>) -> nat {
    cells.filter(|c: u32| paving_of(c) != 0).len()
}

/// Number of cells with a claim.
pub open spec fn claimed_count(cells: Seq<u32>) -> nat {
    cells.filter(|c: u32| claim_of(c) != 0).len()
}

impl TileOverlayGrid {
    /// One cell for each tile.
    pub closed spec fn wf(&self) -> bool {
        self.cells@.len() == OVERLAY_CELLS
    }

    /// All cells, row by row.
    pub closed spec fn words(&self) -> Seq<u32> {
        self.cells@
    }

    /// The cell of a tile; zero off the region.
    pub open spec fn at(&self, lx: int, lz: int) -> u32 {
        if in_region(lx, lz) {
            self.words()[lz * REGION_SIDE + lx]
        } else {
            0
        }
    }

    /// Number of cells.
    pub proof fn lemma_size(&self)
        ensures
            self.wf() <==> self.words().len() == OVERLAY_CELLS,
    {
    }

    /// A grid of zeros.
    pub fn new() -> (r: Self)
        ensures
            r.wf(),
            forall|lx: int, lz: int| r.at(lx, lz) == 0,
            r.words() == Seq::new(OVERLAY_CELLS as nat, |i: int| 0u32),
    {
        let cells: Vec<u32> = vec![0u32; OVERLAY_CELLS];
        assert(cells@ =~= Seq::new(OVERLAY_CELLS as nat, |i: int| 0u32));
        TileOverlayGrid { cells }
    }

    /// The whole plane as bytes, four for each cell.
    pub fn as_bytes(&self) -> (r: Vec<u8>)
        ensures
            r@ == u32s_le(self.words()),
    {
        let mut out: Vec<u8> = Vec::with_capacity(4 * OVERLAY_CELLS);
        let mut i: usize = 0;
        while i < self.cells.len()
            invariant
                i <= self.cells@.len(),
                out@ == u32s_le(self.cells@.take(i as int)),
            decreases self.cells.len() - i,
        {
            push_u32_le(&mut out, self.cells[i]);
            assert(self.cells@.take(i + 1).drop_last() =~= self.cells@.take(i as int));
            i += 1;
        }
        assert(self.cells@.take(i as int) =~= self.cells@);
        out
    }

    /// The cell of a tile for writing; `None` off the region.
    pub fn cell_mut(&mut self, lx: i32, lz: i32) -> (r: Option<&mut u32>)
        requires
            old(self).wf(),
        ensures
            match r {
                Some(cell) => {
                    &&& in_region(lx as int, lz as int)
                    &&& *cell == old(self).at(lx as int, lz as int)
                    &&& final(self).wf()
                    &&& final(self).words() == old(self).words().update(lz * REGION_SIDE + lx, *final(cell))
                },
                None => !in_region(lx as int, lz as int) && *final(self) == *old(self),
            },
    {
        match overlay_index(lx, lz) {
            Some(idx) => Some(&mut self.cells[idx]),
            None => None,
        }
    }

    /// The cell of a tile; zero off the region.
    pub fn get(&self, lx: i32, lz: i32) -> (r: u32)
        requires
            self.wf(),
        ensures
            r == self.at(lx as int, lz as int),
    {
        match overlay_index(lx, lz) {
            Some(idx) => self.cells[idx],
            None => 0,
        }
    }

    /// Number of tiles with a paving.
    pub fn paved_tile_count(&self) -> (r: u32)
        requires
            self.wf(),
        ensures
            r == paved_count(self.words()),
    {
        let ghost p = |c: u32| paving_of(c) != 0;
        let mut n: u32 = 0;
        let mut i: usize = 0;
        assert(self.cells@.take(0).filter(p).len() == 0) by {
            reveal(Seq::filter);
        }
        while i < self.cells.len()
            invariant
                self.cells@.len() == OVERLAY_CELLS,
                i <= self.cells@.len(),
                p == (|c: u32| paving_of(c) != 0),
                n == self.cells@.take(i as int).filter(p).len(),
                n <= i,
            decreases self.cells.len() - i,
        {
            if get_paving(self.cells[i]) != 0 {
                n += 1;
            }
            proof {
                reveal(Seq::filter);
                assert(self.cells@.take(i + 1).drop_last() =~= self.cells@.take(i as int));
            }
            i += 1;
        }
        assert(self.cells@.take(i as int) =~= self.cells@);
        n
    }

    /// Number of tiles with a claim.
    pub fn claim_tile_count(&self) -> (r: u32)
        requires
            self.wf(),
        ensures
            r == claimed_count(self.words()),
    {
        let ghost p = |c: u32| claim_of(c) != 0;
        let mut n: u32 = 0;
        let mut i: usize = 0;
        assert(self.cells@.take(0).filter(p).len() == 0) by {
            reveal(Seq::filter);
        }
        while i < self.cells.len()
            invariant
                self.cells@.len() == OVERLAY_CELLS,
                i <= self.cells@.len(),
                p == (|c: u32| claim_of(c) != 0),
                n == self.cells@.take(i as int).filter(p).len(),
                n <= i,
            decreases self.cells.len() - i,
        {
            if get_claim_index(self.cells[i]) != 0 {
                n += 1;
            }
            proof {
                reveal(Seq::filter);
                assert(self.cells@.take(i + 1).drop_last() =~= self.cells@.take(i as int));
            }
            i += 1;
        }
        assert(self.cells@.take(i as int) =~= self.cells@);
        n
    }
}

impl Default for TileOverlayGrid {
    fn default() -> (r: Self)
        ensures
            r.wf(),
            forall|lx: int, lz: int| r.at(lx, lz) == 0,
    {
        TileOverlayGrid::new()
    }
}

/// Elevation and water level survive packing.
pub proof fn law_terrain_round_trip(elev: i16, orig: i16, water: i16, wbt: u8, packed: u64)
    requires
        packed == terrain_word(elev, orig, water, wbt),
    ensures
        terrain_elevation(packed) == elev,
        terrain_water_level(packed) == water,
        signed16((packed / 0x1_0000 % 0x1_0000) as nat) == orig,
        packed / 0x1_0000_0000_0000 == wbt,
{
    let (e, o, w, t) = (bits16(elev) as int, bits16(orig) as int, bits16(water) as int, wbt as int);
    let high = o + 0x1_0000 * (w + 0x1_0000 * t);
    let top = w + 0x1_0000 * t;
    assert(packed == e + 0x1_0000 * high);
    assert(packed % 0x1_0000 == e && packed / 0x1_0000 == high);
    assert(high % 0x1_0000 == o && high / 0x1_0000 == top);
    assert(packed / 0x1_0000_0000 == top);
    assert(top % 0x1_0000 == w && top / 0x1_0000 == t);
    assert(packed / 0x1_0000_0000_0000 == t);
}

/// The two halves of an overlay cell determine it.
pub proof fn law_overlay_halves(a: u32, b: u32)
    requires
        paving_of(a) == paving_of(b),
        claim_of(a) == claim_of(b),
    ensures
        a == b,
{
}

/// One more cell counts as paved if it has a paving, and as claimed if it has a
/// claim.
pub proof fn law_cells_are_counted(cells: Seq<u32>, cell: u32)
    ensures
        paved_count(Seq::empty()) == 0 && claimed_count(Seq::empty()) == 0,
        paved_count(cells.push(cell)) == paved_count(cells) + (if cell as int % 0x1_0000 != 0 {
            1int
        } else {
            0
        }),
        claimed_count(cells.push(cell)) == claimed_count(cells) + (if cell as int / 0x1_0000 != 0 {
            1int
        } else {
            0
        }),
{
    reveal(Seq::filter);
    assert(cells.push(cell).drop_last() =~= cells);
}

} // verus!
