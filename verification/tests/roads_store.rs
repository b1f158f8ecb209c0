use std::sync::Arc;

use bitcraft_mirror::roads::allowlist::HarvestableIds;
use bitcraft_mirror::roads::coords::terrain_index;
use bitcraft_mirror::roads::grid::{get_claim_index, pack_terrain, set_claim_index, set_paving};
use bitcraft_mirror::roads::harvestable::HarvestableCatalog;
use bitcraft_mirror::roads::store::{RoadsRegionGrid, REGION_STATE_LOADING, REGION_STATE_READY};

fn grid_of(region: u16) -> RoadsRegionGrid {
    RoadsRegionGrid::new(region, Arc::new(HarvestableCatalog::new(HarvestableIds::from_ids(&[5, 66]))), 1_000)
}

#[test]
fn snapshot_atomicity() {
    let mut grid = grid_of(1);
    grid.claim_index.alloc_or_lookup(42);
    grid.claim_index.alloc_or_lookup(99);
    if let Some(cell) = grid.overlay.cell_mut(10, 20) {
        set_paving(cell, 5);
        set_claim_index(cell, 1);
    }
    let snap = grid.snapshot();
    assert_eq!(snap.claim_table.len(), 3);
    assert_eq!(snap.claim_table[1], 42);
    let idx = (20usize * 7680 + 10) * 4;
    let cell = u32::from_le_bytes(snap.overlay[idx..idx + 4].try_into().unwrap());
    let claim_index = get_claim_index(cell);
    assert_eq!(snap.claim_table[claim_index as usize], 42);
}

#[test]
fn window_matches_full_snapshot() {
    let mut grid = grid_of(1);
    grid.claim_index.alloc_or_lookup(42);
    grid.claim_index.alloc_or_lookup(99);
    if let Some(cell) = grid.overlay.cell_mut(10, 20) {
        set_paving(cell, 5);
        set_claim_index(cell, 1);
    }
    if let Some(cell) = grid.overlay.cell_mut(12, 21) {
        set_paving(cell, 7);
        set_claim_index(cell, 2);
    }
    grid.terrain.set(3, 6, pack_terrain(10, -5, 20, 2));
    grid.terrain.set(4, 7, pack_terrain(-3, 1, -2, 9));

    // Duplicates, unsorted input, and an out-of-region tile are folded
    // away; region 1's origin is (0, 0) so world == local here.
    let window = grid.window(&[(12, 21), (10, 20), (10, 20), (-1, 0)]);
    let snap = grid.snapshot();

    assert_eq!((window.origin_x, window.origin_z), (snap.origin_x, snap.origin_z));
    assert_eq!(window.generation, snap.generation);
    assert_eq!(window.tiles.len(), 2);
    assert_eq!((window.tiles[0].x, window.tiles[0].z), (10, 20));
    assert_eq!(window.tiles[0].paving_type_id, 5);
    assert_eq!(window.tiles[0].claim_entity_id, snap.claim_table[1]);
    assert_eq!((window.tiles[1].x, window.tiles[1].z), (12, 21));
    assert_eq!(window.tiles[1].paving_type_id, 7);
    assert_eq!(window.tiles[1].claim_entity_id, snap.claim_table[2]);

    // One super hex per distinct 3x3 block, matching the dense snapshot
    // bytes at the covering terrain index.
    assert_eq!(window.terrain.len(), 2);
    assert_eq!((window.terrain[0].x, window.terrain[0].z), (9, 18));
    assert_eq!(window.terrain[0].terrain, pack_terrain(10, -5, 20, 2));
    assert_eq!((window.terrain[1].x, window.terrain[1].z), (12, 21));
    assert_eq!(window.terrain[1].terrain, pack_terrain(-3, 1, -2, 9));
    for super_hex in &window.terrain {
        let idx = terrain_index(super_hex.x / 3, super_hex.z / 3).unwrap();
        let bytes = &snap.terrain[idx * 8..idx * 8 + 8];
        assert_eq!(super_hex.terrain, u64::from_le_bytes(bytes.try_into().unwrap()));
    }
}

#[test]
fn a_region_is_loading_until_it_is_ready() {
    let mut grid = grid_of(14);
    assert_eq!(grid.status().state, REGION_STATE_LOADING);
    grid.mark_ready(2_000);
    let status = grid.status();
    assert_eq!(status.state, REGION_STATE_READY);
    assert_eq!(status.region, 14);
    let before = grid.generation;
    grid.bump_generation(3_000);
    assert_eq!(grid.generation, before + 1);
    assert_eq!(grid.last_update_unix_ms, 3_000);
    let window = grid.window(&[]);
    assert_eq!((window.origin_x, window.origin_z), (23040, 15360));
}

#[test]
fn the_tag_of_a_map_is_a_digest_of_all_of_it() {
    let mut grid = grid_of(1);
    grid.claim_index.alloc_or_lookup(42);
    let snap = grid.snapshot();
    assert_eq!((snap.terrain.len(), snap.overlay.len()), (52_428_800, 235_929_600));
    assert_eq!(snap.claim_table, vec![0, 42]);
    // SHA-256 of terrain and overlay without anything, then of the claims.
    assert_eq!(snap.etag, "18bf05021d93c3f35f3da06c717e61edb701c5b43e886813193d792fd22fab00");
}
