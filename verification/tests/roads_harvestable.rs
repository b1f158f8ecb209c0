use std::sync::Arc;

use bitcraft_mirror::roads::allowlist::HarvestableIds;
use bitcraft_mirror::roads::coords::footprint_world_hexes;
use bitcraft_mirror::roads::harvestable::{is_harvestable_resource_id, HarvestableCatalog, HarvestableIndex};

const MUD_MOUND: i32 = 66;
const CLAY_TERMITE: i32 = 702104027;
const MAPLE_SAPLING: i32 = 5;

fn ids() -> HarvestableIds {
    HarvestableIds::from_ids(&[3, MAPLE_SAPLING, MUD_MOUND, 204021372, CLAY_TERMITE])
}

fn catalog() -> HarvestableCatalog {
    let mut c = HarvestableCatalog::new(ids());
    c.set_footprint(MUD_MOUND, vec![(0, 0), (0, -1), (-1, 0)]);
    c.set_footprint(CLAY_TERMITE, vec![(0, 0), (1, 0), (0, 1), (-1, 1), (-1, 0), (0, -1), (1, -1)]);
    c
}

fn index() -> HarvestableIndex {
    HarvestableIndex::new(Arc::new(catalog()))
}

fn tiles_on(idx: &HarvestableIndex, hexes: &[(i32, i32)]) -> Vec<(i32, i32, i32)> {
    let mut out = Vec::new();
    for &(x, z) in hexes {
        for id in idx.resource_ids_on(x, z) {
            out.push((x, z, id));
        }
    }
    out.sort_unstable();
    out
}

#[test]
fn allowlist_covers_forestry_mining_foraging_tags() {
    assert!(is_harvestable_resource_id(&ids(), 3)); // Rotten Log / Wood Logs
    assert!(is_harvestable_resource_id(&ids(), MAPLE_SAPLING));
    assert!(is_harvestable_resource_id(&ids(), MUD_MOUND));
    assert!(is_harvestable_resource_id(&ids(), 204021372)); // Rough Sand Pile
    assert!(!is_harvestable_resource_id(&ids(), 1)); // Sticks
    assert!(!is_harvestable_resource_id(&ids(), 348497955)); // Hexite Deposit
    assert!(!is_harvestable_resource_id(&ids(), 1001));
}

#[test]
fn upsert_join_query_move_and_delete() {
    let mut idx = index();
    idx.upsert(10, MAPLE_SAPLING, 0, None);
    assert_eq!(idx.len(), 1);
    assert!(idx.resource_ids_on(1, 2).is_empty());

    idx.set_location(10, 1, 2);
    assert_eq!(idx.resource_ids_on(1, 2), vec![MAPLE_SAPLING]);

    idx.set_location(10, 3, 4);
    assert!(idx.resource_ids_on(1, 2).is_empty());
    assert_eq!(idx.resource_ids_on(3, 4), vec![MAPLE_SAPLING]);

    idx.upsert(11, 3, 0, Some((3, 4)));
    let mut ids: Vec<_> = idx.resource_ids_on(3, 4);
    ids.sort_unstable();
    assert_eq!(ids, vec![3, MAPLE_SAPLING]);

    idx.upsert(11, 1, 0, Some((3, 4))); // sticks - drop
    assert_eq!(idx.resource_ids_on(3, 4), vec![MAPLE_SAPLING]);
    assert_eq!(idx.len(), 1);

    idx.delete(10);
    assert_eq!(idx.len(), 0);
    assert!(idx.resource_ids_on(3, 4).is_empty());
}

#[test]
fn unknown_location_is_noop() {
    let mut idx = index();
    idx.set_location(99, 1, 2);
    idx.clear_location(99);
    idx.delete(99);
    assert_eq!(idx.len(), 0);
}

#[test]
fn mud_mound_occupies_full_footprint_on_even_and_odd_rows() {
    let offsets = catalog().footprint_offsets(MUD_MOUND);
    assert_eq!(offsets, &[(0, 0), (0, -1), (-1, 0)]);

    let even: Vec<_> = footprint_world_hexes(10, 20, 0, &offsets);
    assert_eq!(even.len(), 3);
    assert!(even.contains(&(10, 20)));

    let mut idx = index();
    idx.upsert(1, MUD_MOUND, 0, Some((10, 20)));
    for &(x, z) in &even {
        assert_eq!(
            idx.resource_ids_on(x, z),
            vec![MUD_MOUND],
            "{x},{z}"
        );
    }
    // Neighbor not in the footprint stays empty.
    let occupied: std::collections::HashSet<(i32, i32)> = even.iter().copied().collect();
    for dx in -2..=2 {
        for dz in -2..=2 {
            let hex = (10 + dx, 20 + dz);
            if !occupied.contains(&hex) {
                assert!(idx.resource_ids_on(hex.0, hex.1).is_empty(), "{hex:?}");
            }
        }
    }

    let odd: Vec<_> = footprint_world_hexes(10, 1, 0, &offsets);
    idx.set_location(1, 10, 1);
    for &(x, z) in &even {
        assert!(idx.resource_ids_on(x, z).is_empty(), "old even {x},{z}");
    }
    for &(x, z) in &odd {
        assert_eq!(idx.resource_ids_on(x, z), vec![MUD_MOUND]);
    }
}

#[test]
fn clay_termite_se_tile_does_not_shear_on_odd_origin() {
    // Axial SE (0,+1) from odd-r (10,1) is (11,2), not naive (10,2).
    // The full 7-hex rosette also occupies (10,2) via SW (-1,+1).
    let se: Vec<_> = footprint_world_hexes(10, 1, 0, &[(0, 1)]);
    assert_eq!(se, vec![(11, 2)]);

    let offsets = catalog().footprint_offsets(CLAY_TERMITE);
    assert!(offsets.contains(&(0, 1)));
    let tiles: Vec<_> = footprint_world_hexes(10, 1, 0, &offsets);
    assert!(tiles.contains(&(11, 2)));
    assert_eq!(tiles.len(), 7);

    let mut idx = index();
    idx.upsert(7, CLAY_TERMITE, 0, Some((10, 1)));
    assert_eq!(idx.resource_ids_on(11, 2), vec![CLAY_TERMITE]);
    assert_eq!(idx.resource_ids_on(10, 1), vec![CLAY_TERMITE]);
}

#[test]
fn rotation_moves_footprint_tiles() {
    let mut idx = index();
    idx.upsert(1, MUD_MOUND, 0, Some((10, 1)));
    let dir0 = tiles_on(&idx, &[(10, 1), (10, 0), (9, 1), (11, 0)]);
    idx.upsert(1, MUD_MOUND, 1, Some((10, 1)));
    let dir1 = tiles_on(&idx, &[(10, 1), (10, 0), (9, 1), (11, 0)]);
    assert_ne!(dir0, dir1);
    assert!(idx.resource_ids_on(10, 1).len() > 0); // origin stays
    assert!(idx.resource_ids_on(9, 1).is_empty()); // dir-0 W tile vacated
    assert_eq!(idx.resource_ids_on(11, 0), vec![MUD_MOUND]);
}

#[test]
fn growth_to_larger_footprint_reindexes() {
    let mut idx = index();
    idx.upsert(1, MAPLE_SAPLING, 0, Some((10, 20)));
    assert_eq!(idx.resource_ids_on(10, 20), vec![MAPLE_SAPLING]);
    idx.upsert(1, MUD_MOUND, 0, None); // keep loc; expand
    let even: Vec<_> = footprint_world_hexes(10, 20, 0, &catalog().footprint_offsets(MUD_MOUND));
    assert!(even.len() > 1);
    for &(x, z) in &even {
        assert_eq!(idx.resource_ids_on(x, z), vec![MUD_MOUND]);
    }
    assert_eq!(idx.len(), 1);
}

#[test]
fn allowlist_reads_a_list_of_numbers() {
    let list = HarvestableIds::parse("[5, 3,5 ,\n 66]").unwrap();
    assert_eq!(list.len(), 3);
    assert_eq!(ids().len(), 5);
    assert!(list.contains(66));
    assert!(!list.contains(4));
    assert!(HarvestableIds::parse("[5, x]").is_none());
    assert!(HarvestableIds::parse("").is_none());
}

#[test]
fn resources_without_a_footprint_occupy_their_origin() {
    assert_eq!(catalog().footprint_offsets(MAPLE_SAPLING), vec![(0, 0)]);
    assert!(catalog().is_harvestable(MAPLE_SAPLING));
    assert!(!catalog().is_harvestable(74));
}
