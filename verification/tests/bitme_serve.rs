use std::sync::Arc;

use bitcraft_mirror::bitme::hub::BitmeHub;
use bitcraft_mirror::bitme::region_store::RegionStore;
use bitcraft_mirror::bitme::serve::{
    bitme_region_resource_dictionary, bitme_session, bitme_session_resources, bitme_session_resources_ws,
    bitme_world_elevation, bitme_world_resources, DictEntry, DictError, SessionError, SessionWindow, WorldWindow,
    RESOURCE_WS_MAX_CONNECTIONS,
};
use bitcraft_mirror::bitme::session::build_target;
use bitcraft_mirror::bitme::stream::{
    heartbeat_text, subscribed_ack, ResourceStream, StreamAction, StreamEvent, RESOURCE_WS_GONE_AFTER,
};
use bitcraft_mirror::bitme::window::{
    covering_super_window, delta_frames, watch_packets, AnchorError, Packet, WindowReply,
};
use bitcraft_mirror::cell::Single;
use bitcraft_mirror::decode::rows::{MobileEntityRow, PlayerActionRow, ResourceDescRow};
use bitcraft_mirror::id_table::key_of_i32;
use bitcraft_mirror::interest::InterestHub;
use bitcraft_mirror::roads::allowlist::HarvestableIds;
use bitcraft_mirror::roads::catalog::GlobalRoadsCatalog;
use bitcraft_mirror::roads::coords::{small_corner_supers, small_is_corner, small_to_super};
use bitcraft_mirror::roads::decode::PavingDescRow;
use bitcraft_mirror::roads::grid::{pack_terrain, unpack_terrain_water};
use bitcraft_mirror::roads::harvestable::HarvestableCatalog;
use bitcraft_mirror::roads::store::{RoadsRegionGrid, RoadsRegionHandle};
use bitcraft_mirror::roads::watch::{ResourceWatchHub, WatchFrame};

const NOW_MS: i64 = 1_788_628_345_546;

fn single(v: f32) -> Single {
    Single { bits: v.to_bits() }
}

fn ids() -> HarvestableIds {
    HarvestableIds::from_ids(&[3, 5, 66, 204_021_372, 702_104_027])
}

struct Fleet {
    store: RegionStore,
    grid: Option<RoadsRegionGrid>,
    catalog: GlobalRoadsCatalog,
    hub: BitmeHub,
    interest: InterestHub,
}

/// Player 42 standing at region-7 world tile (7690, 7700) - local
/// (10, 20), on top of a mushroom. `dimension: 1` is the overworld.
fn fleet_with_player(dimension: u32, with_roads: bool) -> Fleet {
    let mut store = RegionStore::empty(7);
    store.ready = true;
    store.mobile_entity.insert(
        42,
        MobileEntityRow {
            entity_id: 42,
            timestamp_ms: 1_788_628_340_546,
            location_x: 7_690_000,
            location_z: 7_700_000,
            destination_x: 7_690_000,
            destination_z: 7_700_000,
            dimension,
            is_walking: false,
        },
    );
    let mut catalog = GlobalRoadsCatalog::new();
    let grid = if with_roads {
        let mut grid = RoadsRegionGrid::new(7, Arc::new(HarvestableCatalog::new(ids())), NOW_MS);
        grid.resource_map.note_desc(74, &[]);
        grid.resource_map.upsert(100, 74, 2, Some((7690, 7700)));
        grid.resource_map.stamp_paving(7691, 7700, 59838);
        // Terrain under the player: local small (10, 20) -> super
        // (3, 7) under the official axial-rounding lattice.
        grid.terrain.set(3, 7, pack_terrain(120, 100, 50, 2));
        grid.mark_ready(NOW_MS);
        catalog.paving.push(PavingDescRow {
            id: 59838,
            name: "Cobblestone Road".to_string(),
            paving_duration: single(0.0),
            tier: 0,
            input_cargo_id: 0,
            consumed: vec![],
        });
        Some(grid)
    } else {
        None
    };
    Fleet { store, grid, catalog, hub: BitmeHub::new(), interest: InterestHub::new() }
}

fn handle(grid: &RoadsRegionGrid) -> RoadsRegionHandle<'_> {
    RoadsRegionHandle { region: grid.region as u32, grid }
}

impl Fleet {
    fn session_resources(&mut self, id: &str) -> SessionWindow {
        let shards = [&self.store];
        match &self.grid {
            Some(g) => bitme_session_resources(&mut self.hub, Some(&[handle(g)]), &shards, id, 0),
            None => bitme_session_resources(&mut self.hub, None, &shards, id, 0),
        }
    }

    fn session_stream(&mut self, id: &str) -> Result<(u32, (i32, i32)), SessionError> {
        let shards = [&self.store];
        match &self.grid {
            Some(g) => bitme_session_resources_ws(&mut self.hub, &mut self.interest, Some(&[handle(g)]), &shards, id, 0),
            None => bitme_session_resources_ws(&mut self.hub, &mut self.interest, None, &shards, id, 0),
        }
    }

    fn world_resources(&self, x: &str, z: &str) -> WorldWindow {
        match &self.grid {
            Some(g) => bitme_world_resources(Some(&[handle(g)]), x, z),
            None => bitme_world_resources(None, x, z),
        }
    }

    fn world_elevation(&self, x: &str, z: &str) -> WorldWindow {
        match &self.grid {
            Some(g) => bitme_world_elevation(Some(&[handle(g)]), x, z),
            None => bitme_world_elevation(None, x, z),
        }
    }
}

fn session_body(w: SessionWindow) -> Vec<u8> {
    match w {
        SessionWindow::Window(WindowReply::Body(b)) => b,
        other => panic!("a window was expected, got {other:?}"),
    }
}

fn world_body(w: WorldWindow) -> Vec<u8> {
    match w {
        WorldWindow::Window(WindowReply::Body(b)) => b,
        other => panic!("a window was expected, got {other:?}"),
    }
}

#[test]
fn resource_window_serves_packed_grid() {
    let mut fleet = fleet_with_player(1, true);
    let body = session_body(fleet.session_resources("42"));
    assert_eq!(body.len(), 24 + 400 * 400 * 2);
    assert_eq!(&body[0..4], b"BMR1");
    assert_eq!(u16::from_le_bytes(body[4..6].try_into().unwrap()), 1); // version
    assert_eq!(u16::from_le_bytes(body[6..8].try_into().unwrap()), 400); // width
    assert_eq!(i32::from_le_bytes(body[8..12].try_into().unwrap()), 7490);
    assert_eq!(i32::from_le_bytes(body[12..16].try_into().unwrap()), 7500);
    assert_eq!(u32::from_le_bytes(body[16..20].try_into().unwrap()), 7);
    assert_ne!(u32::from_le_bytes(body[20..24].try_into().unwrap()), 0); // dict_version

    // The player's own tile carries resource 74 (dictionary index 1), its
    // direction, origin flag set.
    let off = 24 + (200 * 400 + 200) * 2;
    let word = u16::from_le_bytes(body[off..off + 2].try_into().unwrap());
    assert_eq!(word & 0x03FF, 1);
    // Bits 11 to 13 hold the direction of the row as it is, 0 to 5: here 2, not
    // half of it.
    assert_eq!(word >> 11, 2);
    assert_ne!(word & (1 << 10), 0);

    // The paved tile one column east carries bit 14 + paving index 1.
    let off = 24 + (200 * 400 + 201) * 2;
    let word = u16::from_le_bytes(body[off..off + 2].try_into().unwrap());
    assert_ne!(word & (1 << 14), 0, "paving flag set");
    assert_eq!(word & 0x03FF, 1, "paving index (separate namespace)");
    assert_eq!((word >> 11) & 7, 0, "paving has no direction");
    assert_eq!(fleet.hub.session_count(), 1);
}

#[test]
fn resource_window_202_while_grid_loading() {
    let mut fleet = fleet_with_player(1, true);
    fleet.grid.as_mut().unwrap().ready = false;
    assert!(matches!(fleet.session_resources("42"), SessionWindow::Window(WindowReply::Loading)));
}

#[test]
fn resource_window_404_for_interior_player() {
    let mut fleet = fleet_with_player(2, true);
    assert!(matches!(
        fleet.session_resources("42"),
        SessionWindow::Refused(SessionError::NotOnOverworld { player: 42 })
    ));
}

#[test]
fn resource_window_404_for_unknown_player() {
    let mut fleet = fleet_with_player(1, true);
    assert!(matches!(
        fleet.session_resources("43"),
        SessionWindow::Refused(SessionError::NoPlayer { player: 43 } | SessionError::NotOnOverworld { player: 43 })
    ));
}

#[test]
fn resource_window_503_without_roads() {
    let mut fleet = fleet_with_player(1, false);
    assert!(matches!(fleet.session_resources("42"), SessionWindow::Window(WindowReply::NotEnabled)));
}

#[test]
fn resource_window_400_bad_id() {
    let mut fleet = fleet_with_player(1, true);
    assert!(matches!(fleet.session_resources("abc"), SessionWindow::Refused(SessionError::BadId)));
    assert_eq!(fleet.hub.session_count(), 0);
}

#[test]
fn world_resource_window_matches_player_window() {
    let mut fleet = fleet_with_player(1, true);
    let world = world_body(fleet.world_resources("7690", "7700"));

    // (7690, 7700) is player 42's tile -> byte-identical to the session
    // window anchored on the player.
    let session = session_body(fleet.session_resources("42"));
    assert_eq!(world, session);

    // Header sanity: window origin is center - 200, region derived as 7.
    assert_eq!(world.len(), 24 + 400 * 400 * 2);
    assert_eq!(&world[0..4], b"BMR1");
    assert_eq!(i32::from_le_bytes(world[8..12].try_into().unwrap()), 7490);
    assert_eq!(i32::from_le_bytes(world[12..16].try_into().unwrap()), 7500);
    assert_eq!(u32::from_le_bytes(world[16..20].try_into().unwrap()), 7);
}

#[test]
fn world_resource_window_404_outside_grid() {
    let fleet = fleet_with_player(1, true);
    for (x, z) in [("-1", "0"), ("0", "-1"), ("38400", "0")] {
        assert!(
            matches!(fleet.world_resources(x, z), WorldWindow::Refused(AnchorError::OffWorld { .. })),
            "{x}/{z}"
        );
    }
}

#[test]
fn world_resource_window_404_for_unmirrored_region() {
    // (100, 100) is region 1 - valid world coords, but only region 7 exists.
    let fleet = fleet_with_player(1, true);
    assert!(matches!(
        fleet.world_resources("100", "100"),
        WorldWindow::Window(WindowReply::NoMap { region: 1 })
    ));
}

#[test]
fn world_resource_window_400_bad_coords() {
    let fleet = fleet_with_player(1, true);
    assert!(matches!(fleet.world_resources("abc", "0"), WorldWindow::Refused(AnchorError::NotIntegers)));
}

#[test]
fn world_resource_window_503_without_roads() {
    let fleet = fleet_with_player(1, false);
    assert!(matches!(fleet.world_resources("7690", "7700"), WorldWindow::Window(WindowReply::NotEnabled)));
}

#[test]
fn world_resource_window_202_while_grid_loading() {
    let mut fleet = fleet_with_player(1, true);
    fleet.grid.as_mut().unwrap().ready = false;
    assert!(matches!(fleet.world_resources("7690", "7700"), WorldWindow::Window(WindowReply::Loading)));
}

#[test]
fn world_elevation_window_serves_packed_terrain() {
    let fleet = fleet_with_player(1, true);
    let expected_generation = fleet.grid.as_ref().unwrap().generation;
    let body = world_body(fleet.world_elevation("7690", "7700"));

    // Covering supers for local tile window [-190, 210) x [-180, 220):
    // origin (-65, -61), 137 columns x 136 rows. The odd-r shear makes
    // the column count vary with the window's row alignment (134-137).
    let (origin, width, height) = covering_super_window(-190, -180, 400, 400);
    assert_eq!((origin, width, height), ((-65, -61), 137, 136));

    assert_eq!(body.len(), 26 + width * height * 8);
    assert_eq!(&body[0..4], b"BME1");
    assert_eq!(u16::from_le_bytes(body[4..6].try_into().unwrap()), 2); // version
    assert_eq!(u16::from_le_bytes(body[6..8].try_into().unwrap()), 137); // width
    assert_eq!(u16::from_le_bytes(body[8..10].try_into().unwrap()), 136); // height

    // Cell (0,0) = super (-65, -61); its center tile is (3*(-65)+1, 3*(-61))
    // local -> world (7680 - 194, 7680 - 183) - odd super rows sit one tile
    // right.
    assert_eq!(i32::from_le_bytes(body[10..14].try_into().unwrap()), 7486);
    assert_eq!(i32::from_le_bytes(body[14..18].try_into().unwrap()), 7497);
    assert_eq!(u32::from_le_bytes(body[18..22].try_into().unwrap()), 7);
    assert_eq!(u32::from_le_bytes(body[22..26].try_into().unwrap()), expected_generation as u32);

    let cell = |r: usize, c: usize| {
        u64::from_le_bytes(body[26 + (r * width + c) * 8..26 + (r * width + c) * 8 + 8].try_into().unwrap())
    };
    // Seeded super (3, 7) -> row 7 - (-61) = 68, col 3 - (-65) = 68; all
    // four packed fields survive the roundtrip.
    let word = cell(68, 68);
    assert_eq!(word, pack_terrain(120, 100, 50, 2));
    assert_eq!(unpack_terrain_water(word), (120, 50));
    assert_eq!(((word >> 16) & 0xFFFF) as u16 as i16, 100); // original
    assert_eq!((word >> 48) as u8, 2); // water_body_type

    // Out-of-region corner supers are zero (window origin is negative).
    assert_eq!(cell(0, 0), 0);

    // Covering guarantee: every tile of the 400x400 window finds all of
    // its supers - the primary, plus the corner triple where three
    // supers meet - inside the served window.
    for lz in -180..220 {
        for lx in -190..210 {
            let supers = if small_is_corner(lx, lz) {
                small_corner_supers(lx, lz).to_vec()
            } else {
                vec![small_to_super(lx, lz)]
            };
            for (sx, sz) in supers {
                let (dr, dc) = (sz - origin.1, sx - origin.0);
                assert!(
                    dr >= 0 && (dr as usize) < height && dc >= 0 && (dc as usize) < width,
                    "tile ({lx},{lz}) super ({sx},{sz}) outside window {origin:?} {width}x{height}"
                );
            }
        }
    }
}

#[test]
fn world_elevation_window_404_outside_grid() {
    let fleet = fleet_with_player(1, true);
    for (x, z) in [("-1", "0"), ("0", "-1"), ("38400", "0")] {
        assert!(
            matches!(fleet.world_elevation(x, z), WorldWindow::Refused(AnchorError::OffWorld { .. })),
            "{x}/{z}"
        );
    }
}

#[test]
fn world_elevation_window_404_for_unmirrored_region() {
    let fleet = fleet_with_player(1, true);
    assert!(matches!(
        fleet.world_elevation("100", "100"),
        WorldWindow::Window(WindowReply::NoMap { region: 1 })
    ));
}

#[test]
fn world_elevation_window_400_bad_coords() {
    let fleet = fleet_with_player(1, true);
    assert!(matches!(fleet.world_elevation("abc", "0"), WorldWindow::Refused(AnchorError::NotIntegers)));
}

#[test]
fn world_elevation_window_503_without_roads() {
    let fleet = fleet_with_player(1, false);
    assert!(matches!(fleet.world_elevation("7690", "7700"), WorldWindow::Window(WindowReply::NotEnabled)));
}

#[test]
fn world_elevation_window_202_while_grid_loading() {
    let mut fleet = fleet_with_player(1, true);
    fleet.grid.as_mut().unwrap().ready = false;
    assert!(matches!(fleet.world_elevation("7690", "7700"), WorldWindow::Window(WindowReply::Loading)));
}

fn mushroom_desc() -> ResourceDescRow {
    ResourceDescRow {
        id: 74,
        name: "Button Mushrooms".to_string(),
        max_health: 200,
        despawn_time: single(0.0),
        on_destroy_yield_resource_id: 0,
        scheduled_respawn_time: single(600.0),
    }
}

#[test]
fn resource_dictionary_lists_entries_with_gamedata() {
    let mut fleet = fleet_with_player(1, true);
    fleet.store.resource_desc.insert(key_of_i32(74), mushroom_desc());
    let shards = [&fleet.store];
    let grids = [handle(fleet.grid.as_ref().unwrap())];
    let list = ids();
    let dict = bitme_region_resource_dictionary(Some(&grids), &shards, &list, &fleet.catalog, "7").unwrap();
    assert_eq!(dict.region, 7);
    assert_ne!(dict.dict_version, 0);
    let DictEntry::Resource { index, resource_id, desc, harvestable } = &dict.entries[0] else {
        panic!("a resource was expected");
    };
    assert_eq!(*index, 1);
    assert_eq!(*resource_id, 74);
    assert_eq!(desc.unwrap().name, "Button Mushrooms");
    // Forageable: the client filters on this instead of a server allowlist.
    assert!(!harvestable);
    assert_eq!(desc.unwrap().max_health, 200);
    assert_eq!(desc.unwrap().scheduled_respawn_time, single(600.0));

    // Paving namespace: separate index space, flagged on the entry,
    // named from the global paving catalog.
    let paving = dict
        .entries
        .iter()
        .find_map(|e| match e {
            DictEntry::Paving { index, paving_type_id, name } => Some((*index, *paving_type_id, *name)),
            DictEntry::Resource { .. } => None,
        })
        .expect("paving entry");
    assert_eq!(paving.1, 59838);
    assert_eq!(paving.2.unwrap(), "Cobblestone Road");
    // Index namespaces are independent - both start at 1; the tile
    // word's bit 14 is what tells them apart on the wire.
    assert_eq!(paving.0, 1);

    // Unknown region -> 404; garbage region id -> 400.
    assert_eq!(
        bitme_region_resource_dictionary(Some(&grids), &shards, &list, &fleet.catalog, "99").unwrap_err(),
        DictError::UnknownRegion { region: 99 }
    );
    assert_eq!(
        bitme_region_resource_dictionary(Some(&grids), &shards, &list, &fleet.catalog, "x").unwrap_err(),
        DictError::BadRegion
    );
    assert_eq!(
        bitme_region_resource_dictionary(None, &shards, &list, &fleet.catalog, "7").unwrap_err(),
        DictError::NotEnabled
    );
}

#[test]
fn resource_dictionary_waits_for_the_maps() {
    let mut fleet = fleet_with_player(1, true);
    fleet.grid.as_mut().unwrap().ready = false;
    let shards = [&fleet.store];
    let grids = [handle(fleet.grid.as_ref().unwrap())];
    assert_eq!(
        bitme_region_resource_dictionary(Some(&grids), &shards, &ids(), &fleet.catalog, "7").unwrap_err(),
        DictError::Loading
    );
}

/// Harvesting mushrooms must resolve identity even without a roads grid or a
/// map sighting: the Extract action's recipe joins against the extraction
/// recipes.
#[test]
fn target_identity_falls_back_to_extraction_recipe() {
    let hub = BitmeHub::new();
    let mut s = RegionStore::empty(7);
    s.extraction_recipe.insert(key_of_i32(424_242), 74); // Button Mushrooms
    s.resource_desc.insert(key_of_i32(74), mushroom_desc());

    let t = build_target(&hub, None, &s, 5001, Some(424_242), NOW_MS);
    assert_eq!(t.resource_id, Some(74));
    assert_eq!(t.desc.unwrap().name, "Button Mushrooms");
    assert_eq!(t.desc.unwrap().max_health, 200);
    assert_eq!(t.desc.unwrap().scheduled_respawn_time, single(600.0));

    // Without a recipe there is nothing to join - identity stays null,
    // never a wrong guess.
    let t = build_target(&hub, None, &s, 5001, None, NOW_MS);
    assert_eq!(t.resource_id, None);
}

/// Event berry bushes carry no despawn time but still have a life countdown:
/// the clock is the entity's growth timer, and none is made up where no timer
/// exists.
#[test]
fn growth_timer_surfaces_as_growth_ends_at_ms() {
    let hub = BitmeHub::new();
    let mut s = RegionStore::empty(7);
    s.resource_desc.insert(
        key_of_i32(353_689_546), // Giant Bountiful Savory Berry Bush (T2 event)
        ResourceDescRow {
            id: 353_689_546,
            name: "Giant Bountiful Savory Berry Bush".to_string(),
            max_health: 500,
            despawn_time: single(0.0), // static gamedata has no despawn window
            on_destroy_yield_resource_id: 0,
            scheduled_respawn_time: single(0.0),
        },
    );
    // Extract actions carry recipe_id; joining it resolves bush identity
    // (with no roads grid the map can't help; the recipe join resolves).
    s.extraction_recipe.insert(key_of_i32(186_875), 353_689_546);

    // No timer row yet -> stays null, never fabricated.
    let t = build_target(&hub, None, &s, 9001, Some(186_875), NOW_MS);
    assert_eq!(t.growth_ends_at_ms, None);
    assert_eq!(t.desc.unwrap().despawn_time, single(0.0));

    // A live growth timer (spawned_at 1788663648856 + 600 s window).
    s.growth_timer.insert(9001, Some(1_788_664_248_840_400));
    let t = build_target(&hub, None, &s, 9001, Some(186_875), NOW_MS);
    assert_eq!(t.growth_ends_at_ms, Some(1_788_664_248_840i64));
    assert_eq!(t.desc.unwrap().despawn_time, single(0.0));

    // Legacy fallback: regions still writing growth_state continue to
    // surface a window when the timer table has no row.
    let mut legacy = RegionStore::empty(7);
    legacy.growth.insert(9001, 1_788_664_248_840_000);
    let t = build_target(&hub, None, &legacy, 9001, None, NOW_MS);
    assert_eq!(t.growth_ends_at_ms, Some(1_788_664_248_840i64));
}

#[test]
fn resource_ws_preupgrade_errors() {
    // Bad entity id.
    let mut fleet = fleet_with_player(1, true);
    assert_eq!(fleet.session_stream("abc"), Err(SessionError::BadId));

    // Unknown player.
    assert!(matches!(
        fleet.session_stream("999"),
        Err(SessionError::NoPlayer { player: 999 } | SessionError::NotOnOverworld { player: 999 })
    ));

    // Roads cache disabled.
    let mut fleet = fleet_with_player(1, false);
    assert_eq!(fleet.session_stream("42"), Err(SessionError::NotEnabled));

    // Player present but not on the overworld.
    let mut fleet = fleet_with_player(2, true);
    assert_eq!(fleet.session_stream("42"), Err(SessionError::NotOnOverworld { player: 42 }));
    assert_eq!(fleet.interest.active_connections(), 0);
}

#[test]
fn streams_are_bounded() {
    let mut fleet = fleet_with_player(1, true);
    for _ in 0..RESOURCE_WS_MAX_CONNECTIONS {
        assert_eq!(fleet.session_stream("42"), Ok((7, (7690, 7700))));
    }
    assert_eq!(fleet.session_stream("42"), Err(SessionError::TooManyStreams));
    fleet.interest.release_connection();
    assert_eq!(fleet.session_stream("42"), Ok((7, (7690, 7700))));
}

#[test]
fn resource_ws_streams_deltas_and_resync() {
    let mut fleet = fleet_with_player(1, true);
    let (region, anchor) = fleet.session_stream("42").unwrap();
    let grid = fleet.grid.as_mut().unwrap();
    let mut watch = ResourceWatchHub::new();
    let id = watch.register(&mut grid.resource_map, region, 42, anchor);

    // Ack: subscribed with the player's region and anchor.
    let ack = subscribed_ack(grid, 42, region, anchor);
    assert_eq!(ack.region, 7);
    assert_eq!(ack.anchor, (7690, 7700));
    assert_eq!(ack.width, 400);
    assert_eq!(ack.player_entity_id, 42);
    assert_eq!(ack.dict_version, grid.resource_map.dict_version());

    // One in-window change (the player's own tile, local (10, 20) in
    // region 7) and one far out of window - only the first is pushed.
    let near = (20u32 * 7680) + 10;
    let far = (7000u32 * 7680) + 7000;
    let frames = watch.fanout(7, &[(near, 0x0205), (far, 0x0007)], 99);
    assert_eq!(frames.len(), 1);
    assert_eq!(frames[0].0, id);
    let packets = watch_packets(&frames[0].1);
    assert_eq!(packets.len(), 1);
    let Packet::Binary(data) = &packets[0] else {
        panic!("delta must be binary, got {packets:?}");
    };
    assert_eq!(&data[0..4], b"BMD1");
    assert_eq!(u16::from_le_bytes(data[4..6].try_into().unwrap()), 1); // version
    assert_eq!(u32::from_le_bytes(data[6..10].try_into().unwrap()), 7); // region
    assert_eq!(u32::from_le_bytes(data[10..14].try_into().unwrap()), 99); // dict_version
    assert_eq!(u16::from_le_bytes(data[14..16].try_into().unwrap()), 1); // count
    assert_eq!(i32::from_le_bytes(data[16..20].try_into().unwrap()), 7690);
    assert_eq!(i32::from_le_bytes(data[20..24].try_into().unwrap()), 7700);
    assert_eq!(u16::from_le_bytes(data[24..26].try_into().unwrap()), 0x0205);

    // Upstream re-seed -> JSON resync frame.
    let frames = watch.on_grid_replaced(&mut grid.resource_map, 7, "reseed");
    let packets = watch_packets(&frames[0].1);
    let Packet::Text(text) = &packets[0] else {
        panic!("resync must be text, got {packets:?}");
    };
    let resync: serde_json::Value = serde_json::from_str(text).unwrap();
    assert_eq!(resync["type"], "resync");
    assert_eq!(resync["reason"], "reseed");
}

#[test]
fn long_deltas_are_split() {
    let tiles: Vec<(i32, i32, u16)> = (0..65536).map(|i| (i, -i, i as u16)).collect();
    let frames = delta_frames(7, 99, &tiles);
    assert_eq!(frames.len(), 2);
    assert_eq!(frames[0].len(), 16 + 65535 * 10);
    assert_eq!(frames[1].len(), 16 + 10);
    assert_eq!(i32::from_le_bytes(frames[1][16..20].try_into().unwrap()), 65535);
    assert_eq!(i32::from_le_bytes(frames[1][20..24].try_into().unwrap()), -65535);
    assert_eq!(watch_packets(&WatchFrame::Delta { region: 7, dict_version: 99, tiles: vec![] }).len(), 0);
}

#[test]
fn a_stream_follows_its_player_and_ends_when_they_are_gone() {
    let mut s = ResourceStream::new(7);
    assert_eq!(s.step(StreamEvent::Frame), StreamAction::Forward);
    assert_eq!(s.step(StreamEvent::Ping), StreamAction::Pong);
    assert_eq!(s.step(StreamEvent::Heartbeat), StreamAction::Beat);
    let here = StreamEvent::Seen { region: 7, x: 1, z: 2, has_maps: true };
    assert_eq!(s.step(here), StreamAction::Follow { x: 1, z: 2 });
    let there = StreamEvent::Seen { region: 8, x: 3, z: 4, has_maps: true };
    assert_eq!(s.step(there), StreamAction::Move { region: 8, x: 3, z: 4 });
    for _ in 0..RESOURCE_WS_GONE_AFTER - 1 {
        assert_eq!(s.step(StreamEvent::Missed), StreamAction::Nothing);
    }
    assert_eq!(s.step(StreamEvent::Missed), StreamAction::Gone);
    assert_eq!(heartbeat_text(17), "{\"ts\":17}");
}

fn action(target: u64, layer: &str) -> PlayerActionRow {
    PlayerActionRow {
        auto_id: 1,
        entity_id: 42,
        start_time_ms: 1000,
        duration_ms: 500,
        target: Some(target),
        recipe_id: None,
        action_type: "Extract".to_string(),
        layer: layer.to_string(),
        last_action_result: "Success".to_string(),
        client_cancel: false,
    }
}

#[test]
fn a_session_tells_of_the_player() {
    let mut fleet = fleet_with_player(1, true);
    fleet.store.player_username.insert(42, "Ada".to_string());
    fleet.store.player_state.insert(42, true);
    fleet.store.player_action.insert(42, vec![action(100, "Base")]);
    fleet.store.resource_desc.insert(key_of_i32(74), mushroom_desc());
    fleet.grid.as_mut().unwrap().join.location_by_entity.insert(100, (7690, 7700));
    let shards = [&fleet.store];
    let grids = [handle(fleet.grid.as_ref().unwrap())];
    let snap = bitme_session(&mut fleet.hub, Some(&grids), &shards, "42", 0, NOW_MS).unwrap();
    assert_eq!(snap.player_entity_id, 42);
    assert_eq!(snap.username.unwrap(), "Ada");
    assert_eq!(snap.signed_in, Some(true));
    assert_eq!(snap.region, 7);
    let position = snap.position.as_ref().unwrap();
    assert_eq!((position.tile_x, position.tile_z), (7690, 7700));
    assert_eq!(position.age_ms, 5000);
    assert_eq!(snap.actions.len(), 1);
    assert_eq!(snap.actions[0].ends_at_ms, 1500);
    let target = snap.target.as_ref().unwrap();
    assert_eq!(target.entity_id, 100);
    assert_eq!(target.resource_id, Some(74));
    assert_eq!(target.location, Some((7690, 7700)));
    assert_eq!(snap.server_time_ms, NOW_MS);
    assert!(snap.claim.is_none());
    assert_eq!(fleet.hub.target_count(), 1);
    assert!(matches!(
        bitme_session(&mut fleet.hub, Some(&grids), &shards, "43", 0, NOW_MS),
        Err(SessionError::NoPlayer { player: 43 })
    ));
    assert!(matches!(
        bitme_session(&mut fleet.hub, Some(&grids), &shards, "-1", 0, NOW_MS),
        Err(SessionError::BadId)
    ));
}

#[test]
fn ages_are_counted_from_signed_times() {
    let mut fleet = fleet_with_player(1, false);
    let mut age = |timestamp_ms: u64| {
        let mut row = fleet.store.mobile_entity.remove(42).unwrap();
        row.timestamp_ms = timestamp_ms;
        fleet.store.mobile_entity.insert(42, row);
        let shards = [&fleet.store];
        let snap = bitme_session(&mut fleet.hub, None, &shards, "42", 0, NOW_MS).unwrap();
        snap.position.as_ref().unwrap().age_ms
    };
    assert_eq!(age(0), NOW_MS);
    assert_eq!(age(NOW_MS as u64 + 1), 0);
    // All bits set are the time one millisecond before the first.
    assert_eq!(age(u64::MAX), NOW_MS + 1);
}

#[test]
fn maps_are_found_by_the_whole_number_of_their_region() {
    let mut fleet = fleet_with_player(1, true);
    fleet.store.region = 0x1_0007;
    let shards = [&fleet.store];
    let grid = fleet.grid.as_ref().unwrap();
    let small = [handle(grid)];
    let missing = bitme_session_resources(&mut fleet.hub, Some(&small), &shards, "42", 0);
    assert!(matches!(missing, SessionWindow::Window(WindowReply::NoMap { region: 0x1_0007 })));
    let large = [RoadsRegionHandle { region: 0x1_0007, grid }];
    let body = session_body(bitme_session_resources(&mut fleet.hub, Some(&large), &shards, "42", 0));
    assert_eq!(u32::from_le_bytes(body[16..20].try_into().unwrap()), 0x1_0007);
}
