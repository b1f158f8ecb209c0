use bitcraft_mirror::roads::coords::{
    axial_to_offset, footprint_hex, footprint_hex_checked, footprint_world_hexes, offset_to_axial, overlay_index,
    region_origin, region_rx_rz, rotate_ccw_axial, small_corner_supers, small_is_corner, small_to_super,
    super_center_tile, terrain_index, world_to_local, world_to_region, Hex, REGION_COUNT_SQRT, REGION_SIDE, SUPER_SIDE,
};


#[test]
fn region_14_origin() {
    assert_eq!(region_rx_rz(14), (3, 2));
    assert_eq!(region_origin(14), Hex::new(23040, 15360));
    assert_eq!(region_origin(1), Hex::new(0, 0));
}

#[test]
fn world_to_region_roundtrips_every_region() {
    for id in 1..=(REGION_COUNT_SQRT * REGION_COUNT_SQRT) {
        let origin = region_origin(id as u16);
        // First and last tile of the region both resolve to it.
        assert_eq!(world_to_region(origin.x, origin.z), Some(id as u16));
        assert_eq!(
            world_to_region(origin.x + REGION_SIDE - 1, origin.z + REGION_SIDE - 1),
            Some(id as u16)
        );
        // The resolved region agrees with world_to_local on containment.
        assert!(world_to_local(id as u16, origin.x, origin.z).is_some());
    }
}

#[test]
fn world_to_region_rejects_outside_grid() {
    assert_eq!(world_to_region(-1, 0), None);
    assert_eq!(world_to_region(0, -1), None);
    assert_eq!(world_to_region(REGION_SIDE * REGION_COUNT_SQRT, 0), None);
    assert_eq!(world_to_region(0, REGION_SIDE * REGION_COUNT_SQRT), None);
    assert_eq!(world_to_region(i32::MIN, i32::MAX), None);
    // Boundary inside the grid stays valid.
    assert_eq!(world_to_region(REGION_SIDE - 1, REGION_SIDE - 1), Some(1));
}

#[test]
fn odd_r_axial_roundtrip_and_negative_floor() {
    for z in -5..6 {
        for x in -5..6 {
            let (q, r) = offset_to_axial(x, z);
            let back = axial_to_offset(q, r);
            assert_eq!(back, Hex::new(x, z), "x={x} z={z}");
        }
    }
    // z = -1 is odd: floor(z/2) = -1, not Rust toward-zero 0.
    assert_eq!(offset_to_axial(0, -1), (1, -1));
}

#[test]
fn rotate_ccw_is_axial_neg_r_q_plus_r() {
    assert_eq!(rotate_ccw_axial(1, 0, 1), (0, 1));
    assert_eq!(rotate_ccw_axial(0, -1, 1), (1, -1));
    assert_eq!(rotate_ccw_axial(1, 0, 6), (1, 0));
    assert_eq!(rotate_ccw_axial(1, 0, -1), (1, -1));
}

#[test]
fn footprint_add_in_axial_avoids_odd_row_shear() {
    // Axial SE (0,+1) from world (10,1)
    // is odd-r (11,2), not naive (10,2).
    let tiles: Vec<_> = footprint_world_hexes(10, 1, 0, &[(0, 0), (0, 1)]);
    assert_eq!(tiles, vec![(10, 1), (11, 2)]);
}

#[test]
fn super_center_tile_roundtrips_through_small_to_super() {
    for sz in -40..40 {
        for sx in -40..40 {
            let (cx, cz) = super_center_tile(sx, sz);
            assert_eq!(small_to_super(cx, cz), (sx, sz), "super ({sx},{sz})");
        }
    }
}

#[test]
fn small_to_super_matches_official_axial_rounding() {
    // Hand-derived from the game's parent_large_tile (axial round(÷3)):
    // rows of 400 consecutive tiles each map to 134 consecutive supers,
    // and odd super rows start one tile further right.
    for lz in 0..12 {
        let mut cols: Vec<i32> = (0..400).map(|lx| small_to_super(lx, lz).0).collect();
        cols.dedup();
        // Consecutive columns, no gaps or repeats in the run.
        for w in cols.windows(2) {
            assert_eq!(w[1] - w[0], 1, "row {lz}");
        }
        assert_eq!(cols.len(), 134, "row {lz}");
        // Super z is round(z/3), independent of x.
        assert_eq!(small_to_super(0, lz).1, round_div3_pub(lz));
    }
    // Block semantics would give (0,0) for tile (2,0); the official
    // lattice assigns it to the next super over.
    assert_eq!(small_to_super(0, 0), (0, 0));
    assert_eq!(small_to_super(1, 0), (0, 0));
    assert_eq!(small_to_super(2, 0), (1, 0));
    assert_eq!(small_to_super(0, 1), (0, 0));
    assert_eq!(small_to_super(0, 2), (0, 1));
    assert_eq!(small_to_super(0, 3), (0, 1));
    assert_eq!(small_to_super(0, 5), (0, 2));
}

#[test]
fn super_x_is_periodic_in_tile_z_with_period_6() {
    // The covering-window math relies on X(x, z+6) == X(x, z).
    for lz in -20..20 {
        for lx in [-7, 0, 5, 123] {
            assert_eq!(
                small_to_super(lx, lz + 6).0,
                small_to_super(lx, lz).0,
                "tile ({lx},{lz})"
            );
        }
    }
}

#[test]
fn corner_tiles_know_their_three_supers() {
    // Tile (1,1) is the down-corner of super axial (0,0) → offset (0,0);
    // official get_terrain_coordinates returns (0,0), (1,0), (0,1).
    assert!(small_is_corner(1, 1));
    assert_eq!(small_corner_supers(1, 1), [(0, 0), (1, 0), (0, 1)]);
    // Tile (6,4): axial (4,4) → down-corner of super axial (1,1) whose
    // offset is (1,1); extra supers axial (2,1)→(2,1) and (1,2)→(2,2).
    assert!(small_is_corner(6, 4));
    assert_eq!(small_corner_supers(6, 4), [(1, 1), (2, 1), (2, 2)]);
    // Up-corner: tile axial (−1,−1) is offset (−2,−1) — supers
    // axial (0,0),(−1,0),(0,−1) → offsets (0,0),(−1,0),(−1,−1).
    assert!(small_is_corner(-2, -1));
    assert_eq!(small_corner_supers(-2, -1), [(0, 0), (-1, 0), (-1, -1)]);
    // Up-corner at positive coords: tile (0,2) is axial (−1,2), the
    // up-corner of super (0,1) → supers (0,1), (−1,1), (0,0).
    assert!(small_is_corner(0, 2));
    assert_eq!(small_corner_supers(0, 2), [(0, 1), (-1, 1), (0, 0)]);
    // Regular tiles are not corners.
    assert!(!small_is_corner(0, 0));
    assert!(!small_is_corner(2, 0));
    assert!(!small_is_corner(0, 1));
    assert!(!small_is_corner(2, 1));
}

#[test]
fn corner_supers_include_the_primary_and_are_distinct() {
    for lz in -15..15 {
        for lx in -15..15 {
            if !small_is_corner(lx, lz) {
                continue;
            }
            let primary = small_to_super(lx, lz);
            let triple = small_corner_supers(lx, lz);
            // The round-to-nearest super is always one of the three the
            // game blends.
            assert!(
                triple.contains(&primary),
                "tile ({lx},{lz}) primary {primary:?} not in {triple:?}"
            );
            let [a, b, c] = triple;
            assert_ne!(a, b);
            assert_ne!(b, c);
            assert_ne!(a, c);
        }
    }
}

fn round_div3_pub(v: i32) -> i32 {
    (v + 1).div_euclid(3)
}

#[test]
fn indices_cover_the_region_and_nothing_else() {
    assert_eq!(overlay_index(0, 0), Some(0));
    assert_eq!(overlay_index(10, 20), Some(20 * 7680 + 10));
    assert_eq!(overlay_index(REGION_SIDE - 1, REGION_SIDE - 1), Some(7680 * 7680 - 1));
    assert_eq!(overlay_index(-1, 0), None);
    assert_eq!(overlay_index(0, REGION_SIDE), None);
    assert_eq!(terrain_index(0, 0), Some(0));
    assert_eq!(terrain_index(2, 1), Some(2562));
    assert_eq!(terrain_index(SUPER_SIDE, 0), None);
    assert_eq!(terrain_index(0, -1), None);
}

#[test]
fn local_coordinates_are_counted_from_the_region_corner() {
    assert_eq!(world_to_local(14, 23040, 15360), Some((0, 0)));
    assert_eq!(world_to_local(14, 23050, 15380), Some((10, 20)));
    assert_eq!(world_to_local(14, 23039, 15360), None);
    assert_eq!(world_to_local(14, 23040 + 7680, 15360), None);
}

#[test]
fn footprints_turn_around_their_origin() {
    for direction in -6..7 {
        assert_eq!(footprint_hex(10, 1, direction, (0, 0)), (10, 1));
    }
    let turned: Vec<(i32, i32)> = (0..6).map(|d| footprint_hex(10, 20, d, (1, 0))).collect();
    for i in 0..6 {
        for j in 0..i {
            assert_ne!(turned[i], turned[j]);
        }
    }
    assert_eq!(footprint_hex(10, 20, 6, (1, 0)), turned[0]);
    assert_eq!(footprint_hex_checked(10, 20, 1, (1, 0)), Some(turned[1]));
    assert_eq!(footprint_hex_checked(i32::MAX, 0, 0, (1, 0)), None);
}

/// Steps between two tiles given by their offsets.
fn steps(a: (i32, i32), b: (i32, i32)) -> i32 {
    let (aq, ar) = offset_to_axial(a.0, a.1);
    let (bq, br) = offset_to_axial(b.0, b.1);
    let (dq, dr) = (aq - bq, ar - br);
    (dq.abs() + dr.abs() + (dq + dr).abs()) / 2
}

#[test]
fn turns_add_up_and_keep_the_distance() {
    for (q, r) in [(1, 0), (3, -5), (-2, 7), (0, 0)] {
        for a in -7..8 {
            let (aq, ar) = rotate_ccw_axial(q, r, a);
            assert_eq!(aq.abs() + ar.abs() + (aq + ar).abs(), q.abs() + r.abs() + (q + r).abs());
            assert_eq!(rotate_ccw_axial(aq, ar, -a), (q, r));
            for b in -7..8 {
                assert_eq!(rotate_ccw_axial(aq, ar, b), rotate_ccw_axial(q, r, a + b));
            }
        }
    }
    assert_eq!(rotate_ccw_axial(3, -5, 5), rotate_ccw_axial(3, -5, -1));
}

#[test]
fn tiles_belong_to_the_nearest_super() {
    for lz in -9..9 {
        for lx in -9..9 {
            let (sx, sz) = small_to_super(lx, lz);
            let near: Vec<(i32, i32)> = (-9..10)
                .flat_map(|z| (-9..10).map(move |x| (x, z)))
                .filter(|s| steps((lx, lz), super_center_tile(s.0, s.1)) <= 1)
                .collect();
            if small_is_corner(lx, lz) {
                assert!(near.is_empty());
                for s in small_corner_supers(lx, lz) {
                    assert_eq!(steps((lx, lz), super_center_tile(s.0, s.1)), 2);
                }
            } else {
                assert_eq!(near, vec![(sx, sz)]);
            }
        }
    }
}
