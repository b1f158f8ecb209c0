use bitcraft_mirror::roads::coords::SUPER_SIDE;
use bitcraft_mirror::roads::grid::{
    get_claim_index, get_paving, pack_overlay, pack_terrain, set_claim_index, set_paving, unpack_terrain_water,
    SuperHexTerrainGrid, TileOverlayGrid,
};
use bitcraft_mirror::roads::index::ClaimIndexTable;
use bitcraft_mirror::roads::join::TerrainWriter;

#[test]
fn facet_mask_preservation() {
    let mut cell = 0u32;
    set_paving(&mut cell, 42);
    assert_eq!(cell, 0x0000_002A);
    set_claim_index(&mut cell, 7);
    assert_eq!(cell, 0x0007_002A);
    set_paving(&mut cell, 99);
    assert_eq!(cell, 0x0007_0063);
    set_claim_index(&mut cell, 0);
    assert_eq!(cell, 0x0000_0063);
}

#[test]
fn terrain_window_clamps_negative_origin_and_region_edge() {
    let mut grid = SuperHexTerrainGrid::new();
    grid.set(0, 0, pack_terrain(10, 8, 2, 1));
    grid.set(2, 1, pack_terrain(30, 20, 5, 3));

    // origin (-1, -1): cell (r, c) holds super (c-1, r-1).
    let bytes = grid.window((-1, -1), 4);
    assert_eq!(bytes.len(), 4 * 4 * 8);
    let cell =
        |r: usize, c: usize| u64::from_le_bytes(bytes[(r * 4 + c) * 8..(r * 4 + c) * 8 + 8].try_into().unwrap());
    assert_eq!(cell(0, 0), 0, "super (-1, -1) is outside");
    assert_eq!(cell(1, 1), pack_terrain(10, 8, 2, 1));
    assert_eq!(cell(2, 3), pack_terrain(30, 20, 5, 3));
    assert_eq!(cell(0, 3), 0);

    // A window fully past the region edge is all zeros.
    assert!(grid.window((SUPER_SIDE, SUPER_SIDE), 4).iter().all(|b| *b == 0));
}

#[test]
fn packed_words_hold_their_facets_apart() {
    assert_eq!(pack_overlay(7, 42), 0x0007_002A);
    assert_eq!(get_paving(0x0007_002A), 42);
    assert_eq!(get_claim_index(0x0007_002A), 7);
    assert_eq!(pack_terrain(1, 2, 3, 4), 0x0004_0003_0002_0001);
    assert_eq!(unpack_terrain_water(pack_terrain(-1, -2, -3, 255)), (-1, -3));
}

#[test]
fn overlay_counts_paved_and_claimed_tiles() {
    let mut grid = TileOverlayGrid::new();
    set_paving(grid.cell_mut(1, 2).unwrap(), 5);
    set_claim_index(grid.cell_mut(1, 2).unwrap(), 1);
    set_claim_index(grid.cell_mut(3, 4).unwrap(), 2);
    assert!(grid.cell_mut(-1, 0).is_none());
    assert_eq!(grid.get(1, 2), 0x0001_0005);
    assert_eq!(grid.get(7680, 0), 0);
    assert_eq!(grid.paved_tile_count(), 1);
    assert_eq!(grid.claim_tile_count(), 2);
}

#[test]
fn overflow_guard() {
    let mut table = ClaimIndexTable::new();
    for i in 1..=65535u64 {
        let idx = table.alloc_or_lookup(i);
        assert_eq!(idx as u64, i);
    }
    assert_eq!(table.alloc_or_lookup(65536), 0);
    assert_eq!(table.claim_table()[0], 0);
}

#[test]
fn a_claim_keeps_its_index() {
    let mut table = ClaimIndexTable::new();
    assert_eq!(table.alloc_or_lookup(42), 1);
    assert_eq!(table.alloc_or_lookup(99), 2);
    assert_eq!(table.alloc_or_lookup(42), 1);
    assert_eq!(table.claim_table(), &[0, 42, 99]);
    assert_eq!(table.distinct_claim_count(), 2);
}

#[test]
fn region_14_chunk_indexing() {
    let mut terrain = SuperHexTerrainGrid::new();
    let mut writer = TerrainWriter::new(14);
    writer.absolute_chunks = true;
    let n = 32 * 32;
    let mut elevations = vec![0i16; n];
    elevations[0] = 7;
    writer.write_chunk(14, &mut terrain, 240, 160, 1, &elevations, &vec![0; n], &vec![0; n], &vec![0; n]);
    assert_eq!(terrain.get(0, 0), pack_terrain(7, 0, 0, 0));
}

#[test]
fn clearing_a_chunk_undoes_its_writing() {
    let mut terrain = SuperHexTerrainGrid::new();
    let mut writer = TerrainWriter::new(1);
    let n = 32 * 32;
    writer.note_chunk(2, 3);
    writer.write_chunk(1, &mut terrain, 2, 3, 1, &vec![5; n], &vec![6; n], &vec![7; n], &vec![8; n]);
    assert_eq!(terrain.get(64, 96), pack_terrain(5, 6, 7, 8));
    assert_eq!(terrain.get(95, 127), pack_terrain(5, 6, 7, 8));
    assert_eq!(terrain.get(96, 96), 0);
    writer.clear_chunk(&mut terrain, 2, 3);
    assert_eq!(terrain.get(64, 96), 0);
    assert_eq!(terrain.get(95, 127), 0);
}

#[test]
fn a_terrain_window_reads_back_what_was_written() {
    let mut grid = SuperHexTerrainGrid::new();
    let word = |x: i32, z: i32| pack_terrain((x + 1) as i16, (z + 2) as i16, 3, 4);
    for z in 0..3 {
        for x in 0..5 {
            grid.set(x, z, word(x, z));
        }
    }
    let bytes = grid.window_rect((1, 0), 4, 3);
    for z in 0..3usize {
        for x in 0..4usize {
            let at = (z * 4 + x) * 8;
            let cell = u64::from_le_bytes(bytes[at..at + 8].try_into().unwrap());
            assert_eq!(cell, word(x as i32 + 1, z as i32));
        }
    }
}
