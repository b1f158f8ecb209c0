use bitcraft_mirror::roads::allowlist::HarvestableIds;
use bitcraft_mirror::roads::coords::{overlay_index, small_corner_supers, small_is_corner, small_to_super, REGION_SIDE};
use bitcraft_mirror::roads::grid::{pack_terrain, SuperHexTerrainGrid};
use bitcraft_mirror::roads::resource_map::{
    encode_paving, encode_tile, fnv1a_hash, is_harvestable_resource_id, tile_direction, tile_has_content, tile_index,
    tile_is_origin, tile_is_paving, ResourceTile, ResourceTileMap, PAVING_BIT, WATER_BIT,
};


const MUD_MOUND: i32 = 66;
const MAPLE_SAPLING: i32 = 5;
const BUTTON_MUSHROOMS: i32 = 74;

/// Region 1 -> origin (0, 0): world coords == local coords.
fn map() -> ResourceTileMap {
    ResourceTileMap::new(1)
}

fn tiles_at(m: &ResourceTileMap, hexes: &[(i32, i32)]) -> Vec<(i32, i32, ResourceTile)> {
    let mut out = Vec::new();
    for &(x, z) in hexes {
        if let Some(t) = m.resource_at_local(x, z) {
            out.push((x, z, t));
        }
    }
    out.sort_unstable_by_key(|(_, _, t)| (t.resource_id, t.is_origin));
    out
}

#[test]
fn tile_word_roundtrip() {
    let word = encode_tile(742, 5, true);
    assert_eq!(tile_index(word), 742);
    assert_eq!(tile_direction(word), 5);
    assert!(tile_is_origin(word));
    // Reserved bits stay zero.
    assert_eq!(word >> 14, 0);
    assert_eq!(encode_tile(1, 0, false), 1);
}

#[test]
fn dictionary_version_tracks_interning() {
    let mut m = map();
    m.note_desc(MAPLE_SAPLING, &[]);
    let v1 = m.dict_version();
    assert_eq!(m.dict_ids()[1], MAPLE_SAPLING);
    // Re-noting the same id is stable.
    m.note_desc(MAPLE_SAPLING, &[]);
    assert_eq!(m.dict_version(), v1);
    m.note_desc(BUTTON_MUSHROOMS, &[]);
    assert_ne!(m.dict_version(), v1);
    assert_eq!(m.dict_ids()[2], BUTTON_MUSHROOMS);
}

#[test]
fn harvestable_allowlist_intact() {
    let list = HarvestableIds::from_ids(&[3, MAPLE_SAPLING, MUD_MOUND, 204_021_372]);
    assert!(is_harvestable_resource_id(&list, MAPLE_SAPLING));
    assert!(is_harvestable_resource_id(&list, MUD_MOUND));
    assert!(!is_harvestable_resource_id(&list, BUTTON_MUSHROOMS)); // forageable
    assert!(!is_harvestable_resource_id(&list, 348_497_955)); // Hexite Deposit
}

#[test]
fn single_hex_upsert_move_and_delete() {
    let mut m = map();
    m.note_desc(BUTTON_MUSHROOMS, &[]);
    // Resource row before its location row: nothing stamped yet.
    m.upsert(10, BUTTON_MUSHROOMS, 0, None);
    assert_eq!(m.len(), 1);
    assert_eq!(m.located_len(), 0);
    assert!(m.resource_at_local(1, 2).is_none());

    m.set_location(10, 1, 2);
    assert_eq!(m.located_len(), 1);
    assert_eq!(tiles_at(&m, &[(1, 2)]).len(), 1);

    m.set_location(10, 3, 4);
    assert!(m.resource_at_local(1, 2).is_none());
    assert_eq!(tiles_at(&m, &[(3, 4)]).len(), 1);

    m.delete(10);
    assert_eq!(m.len(), 0);
    assert!(m.resource_at_local(3, 4).is_none());
}

#[test]
fn multi_hex_footprint_stamped_with_origin_and_direction() {
    let mut m = map();
    m.note_desc(MUD_MOUND, &[(0, 0), (0, -1), (-1, 0)]);
    m.upsert(1, MUD_MOUND, 0, Some((10, 20)));

    // Axial (0,-1)/(-1,0) around odd-r (10,20) (even row) -> (9,19)/(9,20).
    let occupied = vec![(10, 20), (9, 19), (9, 20)];
    let stamped = tiles_at(&m, &occupied);
    assert_eq!(stamped.len(), 3);
    for (x, z, t) in stamped {
        assert_eq!(t.resource_id, MUD_MOUND);
        assert_eq!(t.direction, 0);
        assert_eq!(t.is_origin, (x, z) == (10, 20));
    }
    // Neighbors stay empty.
    assert!(m.resource_at_local(10, 19).is_none());

    // Direction rotates the footprint; origin flag follows the anchor.
    // Dir 1 = ccw rotation: axial (0,-1)->(1,-1) and (-1,0)->(0,-1),
    // which land on odd-r (10,19) and (9,19) around the same origin.
    m.upsert(1, MUD_MOUND, 1, Some((10, 20)));
    assert!(m.resource_at_local(9, 20).is_none()); // dir-0-only tile vacated
    let rotated = tiles_at(&m, &[(10, 20), (10, 19)]);
    assert_eq!(rotated.len(), 2);
}

#[test]
fn growth_rewrite_expands_footprint_cleanly() {
    let mut m = map();
    m.note_desc(MAPLE_SAPLING, &[]);
    m.note_desc(MUD_MOUND, &[(0, 0), (0, -1), (-1, 0)]);
    m.upsert(1, MAPLE_SAPLING, 0, Some((10, 20)));
    m.upsert(1, MUD_MOUND, 0, Some((10, 20))); // same entity grows
    let occupied = vec![(10, 20), (9, 19), (9, 20)];
    assert_eq!(tiles_at(&m, &occupied).len(), 3);
    assert_eq!(m.len(), 1);
}

#[test]
fn delete_clears_only_its_own_tiles() {
    let mut m = map();
    m.note_desc(MUD_MOUND, &[(0, 0), (0, -1), (-1, 0)]);
    m.upsert(1, MUD_MOUND, 0, Some((10, 20)));
    m.delete(1);
    for hex in [(10, 20), (10, 19), (9, 20)] {
        assert!(m.resource_at_local(hex.0, hex.1).is_none(), "{hex:?}");
    }
}

/// The world spawns single-hex forageables on multi-hex resources'
/// footprint tiles. The bigger shape keeps the shared tile, and removing
/// the forageable later must not erase the occupant's tile.
#[test]
fn single_hex_yields_to_multi_hex_occupant() {
    let mut m = map();
    m.note_desc(MUD_MOUND, &[(0, 0), (0, -1), (-1, 0)]);
    m.note_desc(BUTTON_MUSHROOMS, &[]);
    // Mushroom first, mound second: the mound's footprint covers the
    // mushroom's tile and wins it.
    m.upsert(1, BUTTON_MUSHROOMS, 0, Some((10, 20)));
    m.upsert(2, MUD_MOUND, 0, Some((10, 20)));
    let t = m.resource_at_local(10, 20).unwrap();
    assert_eq!(t.resource_id, MUD_MOUND);
    assert_eq!(m.resource_of(1).unwrap().0, BUTTON_MUSHROOMS); // entity kept

    // Removing the mushroom must not zero the mound's tile.
    m.delete(1);
    let t = m.resource_at_local(10, 20).unwrap();
    assert_eq!(t.resource_id, MUD_MOUND);

    // Reverse order: mound seeded first, mushroom spawns under it -
    // the mushroom is not stamped and the mound keeps everything.
    m.upsert(3, MUD_MOUND, 0, Some((20, 40)));
    m.upsert(4, BUTTON_MUSHROOMS, 0, Some((20, 40)));
    let t = m.resource_at_local(20, 40).unwrap();
    assert_eq!(t.resource_id, MUD_MOUND);
    m.delete(4);
    let t = m.resource_at_local(20, 40).unwrap();
    assert_eq!(t.resource_id, MUD_MOUND);
    m.delete(3);
    assert!(m.resource_at_local(20, 40).is_none());
}

#[test]
fn window_clamps_negative_origin_and_region_edge() {
    let mut m = map();
    m.note_desc(BUTTON_MUSHROOMS, &[]);
    m.note_desc(MAPLE_SAPLING, &[]);
    // Region-1 corner tile and a tile past the 7680 side are both
    // addressable world coords; the past-edge one is out of region.
    m.upsert(1, BUTTON_MUSHROOMS, 0, Some((0, 0)));
    m.upsert(2, MAPLE_SAPLING, 0, Some((7679, 7679)));

    // Window hanging off the top-left corner: exactly one resource,
    // at relative (200, 200) for a 400-wide window anchored at
    // (-200, -200).
    let bytes = m.window((-200, -200), 400);
    assert_eq!(bytes.len(), 400 * 400 * 2);
    let off = (200 * 400 + 200) * 2;
    let word = u16::from_le_bytes(bytes[off..off + 2].try_into().unwrap());
    assert_eq!(tile_index(word), 1);

    // Window hanging off the bottom-right corner.
    let bytes = m.window((7679 - 200, 7679 - 200), 400);
    let word = u16::from_le_bytes(bytes[off..off + 2].try_into().unwrap());
    assert_eq!(tile_index(word), 2);
}

#[test]
fn out_of_region_upsert_keeps_node_without_tiles() {
    let mut m = map(); // region 1: world 0..7680
    m.note_desc(BUTTON_MUSHROOMS, &[]);
    m.upsert(1, BUTTON_MUSHROOMS, 0, Some((-5, 100)));
    assert_eq!(m.len(), 1);
    assert_eq!(m.located_len(), 1); // node keeps its loc; no tile stamped
    assert!(m.resource_at_local(0, 0).is_none());
    // Later arriving in-region location still lands.
    m.set_location(1, 12, 34);
    assert_eq!(tiles_at(&m, &[(12, 34)]).len(), 1);
}

const PAVING_TYPE_A: i32 = 1;
const PAVING_TYPE_B: i32 = 59838;

#[test]
fn paving_stamps_clears_and_interns_separately() {
    let mut m = map();
    m.stamp_paving(10, 20, PAVING_TYPE_A);
    // Paving words are invisible to the resources endpoint...
    assert!(m.resource_at_local(10, 20).is_none());
    // ...but present as bit-14 words, one index per paving type.
    m.stamp_paving(12, 20, PAVING_TYPE_B);
    assert_eq!(m.paving_at_local(10, 20), Some(PAVING_TYPE_A));
    assert_eq!(m.paving_at_local(12, 20), Some(PAVING_TYPE_B));

    // Dict version covers the paving namespace.
    let v1 = m.dict_version();
    m.stamp_paving(14, 20, 884); // new type interned
    assert_ne!(m.dict_version(), v1);
    assert_eq!(m.dict_paving_ids()[1], PAVING_TYPE_A);
    assert_eq!(m.dict_paving_ids()[2], PAVING_TYPE_B);

    // Clearing matches type exactly.
    m.clear_paving(10, 20, PAVING_TYPE_B); // wrong type: no-op
    assert_eq!(m.paving_at_local(10, 20), Some(PAVING_TYPE_A));
    m.clear_paving(10, 20, PAVING_TYPE_A);
    assert_eq!(m.paving_at_local(10, 20), None);
    // Out-of-region clear/stamp are no-ops.
    m.stamp_paving(-5, 0, PAVING_TYPE_A);
    m.clear_paving(-5, 0, PAVING_TYPE_A);
}

#[test]
fn paving_yields_to_resources_and_never_erases_them() {
    let mut m = map();
    m.note_desc(BUTTON_MUSHROOMS, &[]);
    m.note_desc(MUD_MOUND, &[(0, 0), (0, -1), (-1, 0)]);

    // Resource first: paving does not clobber it...
    m.upsert(1, BUTTON_MUSHROOMS, 0, Some((10, 20)));
    m.stamp_paving(10, 20, PAVING_TYPE_A);
    assert_eq!(m.resource_at_local(10, 20).unwrap().resource_id, BUTTON_MUSHROOMS);
    assert_eq!(m.paving_at_local(10, 20), None);

    // ...and removing the paving leaves the resource untouched.
    m.clear_paving(10, 20, PAVING_TYPE_A);
    assert_eq!(m.resource_at_local(10, 20).unwrap().resource_id, BUTTON_MUSHROOMS);

    // Paving first, multi-hex resource second: the resource overwrites,
    // and paving removal does not punch a hole in the resource.
    m.stamp_paving(30, 40, PAVING_TYPE_A);
    m.upsert(2, MUD_MOUND, 0, Some((30, 40)));
    assert_eq!(m.resource_at_local(30, 40).unwrap().resource_id, MUD_MOUND);
    assert_eq!(m.paving_at_local(30, 40), None);
    m.clear_paving(30, 40, PAVING_TYPE_A);
    assert_eq!(m.resource_at_local(30, 40).unwrap().resource_id, MUD_MOUND);

    // Multi-hex resource removed: its tiles zero (paving was consumed).
    m.delete(2);
    assert!(m.resource_at_local(30, 40).is_none());
}

const WATER_LEVEL: i16 = 10;

fn terrain_with_water(water_super_hexes: &[(i32, i32)]) -> SuperHexTerrainGrid {
    let mut terrain = SuperHexTerrainGrid::new();
    for &(sx, sz) in water_super_hexes {
        terrain.set(sx, sz, pack_terrain(0, 0, WATER_LEVEL, 1));
    }
    terrain
}

#[test]
fn water_fill_and_retention_across_writes() {
    let mut m = map();
    m.note_desc(BUTTON_MUSHROOMS, &[]);

    // Water super-hex (0,0) wets its flower - tiles (0,0), (1,0), (0,1)
    // - and its corners (1,1), (0,2). (10, 20) lives in super-hex
    // (3, 7): land.
    m.fill_water_from_terrain(&terrain_with_water(&[(0, 0)]));

    // Water-only tile: no content, water bit set.
    assert!(!tile_has_content(m.word_at_local(0, 0)));
    assert_eq!(m.word_at_local(0, 0) & WATER_BIT, WATER_BIT);
    assert!(m.resource_at_local(0, 0).is_none());
    assert_eq!(m.paving_at_local(0, 0), None);

    // Land tile untouched.
    assert_eq!(m.word_at_local(10, 20), 0);

    // Resource stamped onto a corner tile of the water super keeps the
    // water bit...
    m.upsert(1, BUTTON_MUSHROOMS, 0, Some((1, 1)));
    let word = m.word_at_local(1, 1);
    assert_ne!(word & WATER_BIT, 0, "water bit rides on resource words");
    assert_eq!(m.resource_at_local(1, 1).unwrap().resource_id, BUTTON_MUSHROOMS);

    // ...and survives the resource's removal.
    m.delete(1);
    assert!(m.resource_at_local(1, 1).is_none());
    assert_ne!(m.word_at_local(1, 1) & WATER_BIT, 0);

    // Paving on water: same retention, both ways (corner tile (0,2)).
    m.stamp_paving(0, 2, PAVING_TYPE_A);
    assert_ne!(m.word_at_local(0, 2) & WATER_BIT, 0);
    m.clear_paving(0, 2, PAVING_TYPE_A);
    assert_ne!(m.word_at_local(0, 2) & WATER_BIT, 0);
    assert_eq!(m.paving_at_local(0, 2), None);

    // A water-only tile counts as empty: paving can land on it.
    m.stamp_paving(0, 0, PAVING_TYPE_A);
    assert_eq!(m.paving_at_local(0, 0), Some(PAVING_TYPE_A));
    m.clear_paving(0, 0, PAVING_TYPE_A);
    assert_eq!(m.paving_at_local(0, 0), None);
    assert_ne!(m.word_at_local(0, 0) & WATER_BIT, 0);
}

#[test]
fn water_fill_partitions_tiles_between_supers() {
    // A checkerboard of water supers: every tile's water bit must equal
    // "any of its supers is water", computed independently from the
    // official per-tile mapping (primary + corner triple).
    let water_supers: Vec<(i32, i32)> = (0..12)
        .flat_map(|sz| (0..12).filter(move |sx| (sx + sz) % 2 == 0).map(move |sx| (sx, sz)))
        .collect();
    let mut m = map();
    m.fill_water_from_terrain(&terrain_with_water(&water_supers));

    for lz in 0..36 {
        for lx in 0..36 {
            let expected = if small_is_corner(lx, lz) {
                small_corner_supers(lx, lz).iter().any(|s| water_supers.contains(s))
            } else {
                water_supers.contains(&small_to_super(lx, lz))
            };
            let got = m.word_at_local(lx, lz) & WATER_BIT != 0;
            assert_eq!(got, expected, "tile ({lx},{lz})");
        }
    }

    // Corner any-of-3: tile (1,1) blends supers (0,0), (1,0), (0,1);
    // wetting only (1,0) still wets it, and drying (1,0) with (0,0)
    // dry leaves it land.
    let mut m = map();
    m.fill_water_from_terrain(&terrain_with_water(&[(1, 0)]));
    assert_ne!(m.word_at_local(1, 1) & WATER_BIT, 0);
    let mut m = map();
    m.fill_water_from_terrain(&terrain_with_water(&[(0, 1)]));
    assert_ne!(m.word_at_local(1, 1) & WATER_BIT, 0);
    let mut m = map();
    m.fill_water_from_terrain(&terrain_with_water(&[(1, 1)]));
    // (1,1) is a corner of supers (0,0), (1,0), (0,1) - not of (1,1).
    assert_eq!(m.word_at_local(1, 1) & WATER_BIT, 0);
    // ...but the flower of (1,1) is wet, e.g. its center tile (4,3).
    assert_ne!(m.word_at_local(4, 3) & WATER_BIT, 0);
}

#[test]
fn land_tiles_stay_dry_and_missing_terrain_defaults_to_land() {
    let mut m = map();
    // No fill call: missing terrain defaults to ground (bit unset).
    m.note_desc(BUTTON_MUSHROOMS, &[]);
    m.upsert(1, BUTTON_MUSHROOMS, 0, Some((10, 20)));
    assert_eq!(m.word_at_local(10, 20) & WATER_BIT, 0);

    // A fill with no water super-hexes sets nothing.
    m.fill_water_from_terrain(&terrain_with_water(&[]));
    assert_eq!(m.word_at_local(10, 20) & WATER_BIT, 0);

    // Water level below elevation (dry basin) is land.
    let mut dry = SuperHexTerrainGrid::new();
    dry.set(1, 1, pack_terrain(50, 50, WATER_LEVEL, 1));
    m.fill_water_from_terrain(&dry);
    assert_eq!(m.word_at_local(3, 3) & WATER_BIT, 0);
}

fn idx_of(x: i32, z: i32) -> u32 {
    overlay_index(x, z).unwrap() as u32
}

#[test]
fn watch_records_pending_only_when_enabled_and_drains() {
    let mut m = map();
    m.note_desc(MUD_MOUND, &[(0, 0), (0, -1), (-1, 0)]);
    // Watch off: mutations record nothing.
    m.upsert(1, MUD_MOUND, 0, Some((10, 20)));
    assert!(m.take_pending().is_empty());

    m.set_watch(true);
    m.upsert(2, MUD_MOUND, 0, Some((30, 40)));
    let mut pending = m.take_pending();
    pending.sort_unstable();
    let mut expected = vec![
        (idx_of(30, 40), encode_tile(1, 0, true)),
        (idx_of(29, 39), encode_tile(1, 0, false)),
        (idx_of(29, 40), encode_tile(1, 0, false)),
    ];
    expected.sort_unstable();
    assert_eq!(pending, expected);
    // Drained: a second take returns nothing until a new write.
    assert!(m.take_pending().is_empty());

    // Deletion zeroes exactly its own tiles (final word 0 on dry land).
    m.delete(2);
    let mut pending = m.take_pending();
    pending.sort_unstable();
    let mut expected: Vec<(u32, u16)> = [(30, 40), (29, 39), (29, 40)]
        .iter()
        .map(|&(x, z)| (idx_of(x, z), 0))
        .collect();
    expected.sort_unstable();
    assert_eq!(pending, expected);

    // A move records both the vacated (zeroed) and re-stamped tiles.
    m.upsert(3, MUD_MOUND, 0, Some((50, 60)));
    assert!(!m.take_pending().is_empty());
    m.set_location(3, 52, 62);
    let pending = m.take_pending();
    for &(idx, word) in &pending {
        let lx = (idx % (REGION_SIDE as u32)) as i32;
        let lz = (idx / (REGION_SIDE as u32)) as i32;
        let vacated = [(50, 60), (49, 59), (49, 60)];
        let stamped = [(52, 62), (51, 61), (51, 62)];
        if vacated.contains(&(lx, lz)) {
            assert_eq!(word, 0, "vacated tile ({lx},{lz}) must zero");
        } else {
            assert!(stamped.contains(&(lx, lz)), "unexpected tile ({lx},{lz})");
            assert_ne!(word, 0);
        }
    }
    assert_eq!(pending.len(), 6);

    m.set_watch(false);
    m.upsert(4, MUD_MOUND, 0, Some((70, 80)));
    assert!(m.take_pending().is_empty());
}

#[test]
fn watch_records_paving_and_water_flips() {
    let mut m = map();
    m.set_watch(true);

    m.stamp_paving(10, 20, PAVING_TYPE_A);
    assert_eq!(m.take_pending(), vec![(idx_of(10, 20), PAVING_BIT | 1)]);
    m.clear_paving(10, 20, PAVING_TYPE_A);
    assert_eq!(m.take_pending(), vec![(idx_of(10, 20), 0)]);

    // Water fill records flips once; a second fill records nothing.
    m.fill_water_from_terrain(&terrain_with_water(&[(0, 0)]));
    let flips = m.take_pending();
    assert!(!flips.is_empty());
    assert!(flips.iter().all(|&(_, w)| w == WATER_BIT));
    m.fill_water_from_terrain(&terrain_with_water(&[(0, 0)]));
    assert!(m.take_pending().is_empty());

    // A resource stamped onto a wet tile carries the water bit in its
    // recorded word; its removal records the bare water bit.
    m.note_desc(BUTTON_MUSHROOMS, &[]);
    m.upsert(1, BUTTON_MUSHROOMS, 0, Some((1, 1)));
    assert_eq!(
        m.take_pending(),
        vec![(idx_of(1, 1), encode_tile(1, 0, true) | WATER_BIT)]
    );
    m.delete(1);
    assert_eq!(m.take_pending(), vec![(idx_of(1, 1), WATER_BIT)]);
}

#[test]
fn paving_words_and_resource_words_differ() {
    assert_eq!(encode_paving(3), PAVING_BIT | 3);
    assert!(tile_is_paving(encode_paving(3)));
    assert!(!tile_is_paving(encode_tile(3, 0, false)));
    assert_eq!(tile_direction(encode_paving(3)), 0);
    assert!(!tile_has_content(WATER_BIT));
    assert!(tile_has_content(WATER_BIT | 1));
}

#[test]
fn dictionary_version_is_the_fnv_hash_of_the_ids() {
    // The offset basis of 32-bit FNV-1a, and the hash of one letter.
    assert_eq!(fnv1a_hash(&[]), 0x811c_9dc5);
    assert_eq!(fnv1a_hash(b"a"), 0xe40c_292c);
    assert_eq!(fnv1a_hash(b"foobar"), 0xbf9c_f968);
}

#[test]
fn clearing_a_location_frees_its_tiles() {
    let mut m = map();
    m.note_desc(BUTTON_MUSHROOMS, &[]);
    m.upsert(1, BUTTON_MUSHROOMS, 2, Some((10, 20)));
    assert_eq!(m.resource_of(1), Some((BUTTON_MUSHROOMS, Some((10, 20)))));
    m.clear_location(1);
    assert_eq!(m.resource_of(1), Some((BUTTON_MUSHROOMS, None)));
    assert_eq!(m.word_at_local(10, 20), 0);
    assert_eq!(m.len(), 1);
    assert_eq!(m.located_len(), 0);
    assert_eq!(m.resource_of(2), None);
}

fn mound(is_origin: bool) -> Option<ResourceTile> {
    Some(ResourceTile { resource_id: MUD_MOUND, direction: 0, is_origin })
}

/// Two mounds that share the tile (9, 19), which the second stamped last.
fn overlapping_mounds() -> ResourceTileMap {
    let mut m = map();
    m.note_desc(MUD_MOUND, &[(0, 0), (0, -1), (-1, 0)]);
    m.upsert(1, MUD_MOUND, 0, Some((10, 20)));
    m.upsert(2, MUD_MOUND, 0, Some((10, 19)));
    m
}

#[test]
fn leaving_keeps_what_a_resource_of_the_same_type_stamped_later() {
    let mut m = overlapping_mounds();
    m.delete(1);
    assert_eq!(m.resource_at_local(9, 19), mound(false));
    assert_eq!(m.resource_at_local(10, 19), mound(true));
    assert_eq!(m.resource_at_local(10, 20), None);
    assert_eq!(m.resource_at_local(9, 20), None);
    m.delete(2);
    assert_eq!(m.resource_at_local(9, 19), None);
    assert_eq!(m.resource_at_local(10, 19), None);
}

#[test]
fn leaving_clears_a_shared_tile_that_was_stamped_last() {
    let mut m = overlapping_mounds();
    m.delete(2);
    assert_eq!(m.resource_at_local(9, 19), None);
    assert_eq!(m.resource_at_local(10, 20), mound(true));
    // The first mound no longer shows on the shared tile: a third one that is
    // stamped there outlives it.
    m.upsert(3, MUD_MOUND, 0, Some((10, 19)));
    m.delete(1);
    assert_eq!(m.resource_at_local(9, 19), mound(false));
}

#[test]
fn moving_keeps_what_a_resource_of_the_same_type_stamped_later() {
    let mut m = overlapping_mounds();
    m.set_location(1, 100, 100);
    assert_eq!(m.resource_at_local(9, 19), mound(false));
    assert_eq!(m.resource_at_local(10, 20), None);
    assert_eq!(m.resource_at_local(100, 100), mound(true));
    let mut m = overlapping_mounds();
    m.clear_location(1);
    assert_eq!(m.resource_at_local(9, 19), mound(false));
    let mut m = overlapping_mounds();
    m.upsert(1, MUD_MOUND, 3, Some((10, 20)));
    assert_eq!(m.resource_at_local(9, 19), mound(false));
    assert_eq!(m.resource_at_local(9, 20), None);
}
