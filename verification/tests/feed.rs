use std::sync::Arc;

use bitcraft_mirror::bitme::hub::LiveTable;
use bitcraft_mirror::cell::{Cell, Single};
use bitcraft_mirror::feed::{
    carry_out_maps, feed_kind, FeedEvent, FeedKind, FeedManager, FeedTarget, GlobalWorker, RegionWorker, RegisterError,
    Registration, RoadsStep, StoreStep,
};
use bitcraft_mirror::json::{Json, JsonNumber};
use bitcraft_mirror::roads::allowlist::HarvestableIds;
use bitcraft_mirror::roads::apply::RowInput;
use bitcraft_mirror::roads::catalog::GlobalRoadsCatalog;
use bitcraft_mirror::roads::grid::{get_claim_index, get_paving, pack_terrain};
use bitcraft_mirror::roads::harvestable::HarvestableCatalog;
use bitcraft_mirror::roads::meta::RoadsTableMeta;
use bitcraft_mirror::roads::store::RoadsRegionGrid;
use bitcraft_mirror::schema::{MirroredField, MirroredSchema, MirroredTable, MirroredType, Problem};

fn table(name: &str, fields: &[(&str, MirroredType)]) -> MirroredTable {
    MirroredTable {
        name: name.to_string(),
        fields: Some(fields.iter().map(|(n, t)| MirroredField { name: Some(n.to_string()), ty: *t }).collect()),
    }
}

fn regional() -> MirroredSchema {
    MirroredSchema {
        tables: vec![
            table(
                "terrain_chunk_state",
                &[
                    ("chunk_x", MirroredType::I32),
                    ("chunk_z", MirroredType::I32),
                    ("dimension", MirroredType::U32),
                    ("elevations", MirroredType::Other),
                    ("original_elevations", MirroredType::Other),
                    ("water_levels", MirroredType::Other),
                    ("water_body_types", MirroredType::Other),
                ],
            ),
            table("paved_tile_state", &[("entity_id", MirroredType::U64), ("tile_type_id", MirroredType::I32)]),
            table("claim_tile_state", &[("entity_id", MirroredType::U64), ("claim_id", MirroredType::U64)]),
            table("claim_state", &[("entity_id", MirroredType::U64), ("neutral", MirroredType::Bool)]),
            table("location_state", &[("entity_id", MirroredType::U64), ("x", MirroredType::I32), ("z", MirroredType::I32), ("dimension", MirroredType::U32)]),
            table("resource_state", &[("entity_id", MirroredType::U64), ("resource_id", MirroredType::I32), ("direction_index", MirroredType::I32)]),
        ],
    }
}

fn id(v: u64) -> Cell {
    Cell::Bytea(Some(v.to_le_bytes().to_vec()))
}

fn num(v: i32) -> Cell {
    Cell::Integer(Some(v))
}

fn list(v: i64, n: usize) -> Cell {
    let entry = || Json::Number(JsonNumber { int: Some(v), uint: None, single: (v as f32).to_bits() });
    Cell::Jsonb(Json::Array((0..n).map(|_| entry()).collect()))
}

fn row(cells: Vec<Cell>) -> RowInput {
    RowInput { bytes: vec![], cells: Some(cells) }
}

fn rows(name: &str, inserts: Vec<RowInput>) -> LiveTable {
    LiveTable { name: name.to_string(), deletes: vec![], inserts }
}

fn seed() -> Vec<LiveTable> {
    let n = 32 * 32;
    vec![
        rows(
            "terrain_chunk_state",
            vec![row(vec![
                num(0),
                num(0),
                Cell::Bigint(Some(1)),
                list(5, n),
                list(4, n),
                list(3, n),
                list(2, n),
            ])],
        ),
        rows("paved_tile_state", vec![row(vec![id(100), num(9)])]),
        rows("claim_tile_state", vec![row(vec![id(100), id(7777)])]),
        rows("location_state", vec![row(vec![id(100), num(10), num(20), Cell::Bigint(Some(1))])]),
    ]
}

fn worker() -> RegionWorker {
    let meta = RoadsTableMeta::from_schema_regional(&regional()).unwrap();
    RegionWorker::new(1, Some(meta), Arc::new(HarvestableCatalog::new(HarvestableIds::from_ids(&[5]))), 1_000)
}

#[test]
fn databases_feed_what_their_name_says() {
    assert_eq!(feed_kind("bitcraft-live-14", false), Some(FeedKind::Region(14)));
    assert_eq!(feed_kind("bitcraft-live-global", true), Some(FeedKind::Global));
    assert_eq!(feed_kind("bitcraft-live-global", false), Some(FeedKind::Nothing));
    assert_eq!(feed_kind("other", true), None);
}

#[test]
fn databases_are_registered_once_their_schema_fits() {
    let mut feeds = FeedManager::new();
    assert!(!feeds.roads_enabled());
    assert!(matches!(feeds.register_region("bitcraft-live-global", &regional()), Ok(Registration::Ignored)));
    feeds.enable_roads();
    assert!(matches!(feeds.register_region("other", &regional()), Err(RegisterError::NotARegion)));
    let lacking = feeds.register_region("bitcraft-live-14", &regional());
    assert!(matches!(lacking, Err(RegisterError::Schema(e)) if matches!(e.problem, Problem::NoColumn { .. })));
    assert_eq!(feeds.target("bitcraft-live-14"), FeedTarget::Nobody);
    assert!(matches!(feeds.register_region("bitcraft-live-global", &regional()), Ok(Registration::Global(_))));
    assert_eq!(feeds.target("bitcraft-live-global"), FeedTarget::Global);
}

#[test]
fn rows_are_collected_aside_until_the_region_is_live() {
    let mut w = worker();
    assert!(matches!(w.on_update(1, true, &seed(), 2_000), (StoreStep::Collect, RoadsStep::Nothing)));
    let (StoreStep::Publish, RoadsStep::Replace(mut grid)) = w.on_live(1, 3_000) else {
        panic!("the region was expected to become live");
    };
    assert!(grid.ready);
    assert_eq!(grid.terrain.get(0, 0), pack_terrain(5, 4, 3, 2));
    assert_eq!(grid.terrain.get(31, 31), pack_terrain(5, 4, 3, 2));
    assert_eq!(grid.terrain.get(32, 0), 0);
    let cell = grid.overlay.get(10, 20);
    assert_eq!(get_paving(cell), 9);
    assert_eq!(grid.claim_index.claim_table()[get_claim_index(cell) as usize], 7777);

    // A change of a live region goes to the maps that can be read.
    let change = [LiveTable {
        name: "paved_tile_state".to_string(),
        deletes: vec![row(vec![id(100), num(9)])],
        inserts: vec![],
    }];
    assert!(matches!(w.on_update(1, false, &change, 4_000), (StoreStep::Apply, RoadsStep::Apply)));
    let meta = w.meta.unwrap();
    bitcraft_mirror::feed::apply_roads_update(&mut grid, &meta, &change, 4_000).unwrap();
    assert_eq!(get_paving(grid.overlay.get(10, 20)), 0);
    assert_eq!(grid.last_update_unix_ms, 4_000);
}

#[test]
fn messages_of_another_generation_are_ignored() {
    let mut w = worker();
    assert!(matches!(w.on_update(2, true, &seed(), 2_000), (StoreStep::Nothing, RoadsStep::Nothing)));
    assert!(matches!(w.on_live(2, 2_000), (StoreStep::Nothing, RoadsStep::Nothing)));
    assert!(matches!(w.on_reset(2, 2_000), (StoreStep::Clear, RoadsStep::Replace(_))));
    assert_eq!(w.generation, 2);
    assert!(matches!(w.on_reset(1, 2_000), (StoreStep::Nothing, RoadsStep::Nothing)));
    assert!(matches!(w.on_live(2, 3_000), (StoreStep::Publish, RoadsStep::Replace(_))));
}

fn global() -> MirroredSchema {
    MirroredSchema {
        tables: vec![
            table(
                "paving_tile_desc",
                &[
                    ("id", MirroredType::I32),
                    ("name", MirroredType::Other),
                    ("paving_duration", MirroredType::F32),
                    ("tier", MirroredType::I32),
                    ("input_cargo_id", MirroredType::I32),
                    ("consumed_item_stacks", MirroredType::Other),
                ],
            ),
            table("region_name_state", &[("id", MirroredType::U16), ("player_facing_name", MirroredType::Other)]),
            table(
                "world_region_state",
                &[("region_width_chunks", MirroredType::U16), ("region_height_chunks", MirroredType::U32), ("region_count_sqrt", MirroredType::U8)],
            ),
        ],
    }
}

#[test]
fn the_catalogue_follows_the_world() {
    let meta = RoadsTableMeta::from_schema_global(&global()).unwrap();
    let mut catalog = GlobalRoadsCatalog::new();
    let mut w = GlobalWorker::new();
    let paving = || {
        row(vec![
            num(7),
            Cell::Text(Some("Path".to_string())),
            Cell::Real(Some(Single { bits: 0 })),
            num(1),
            num(0),
            Cell::Jsonb(Json::Array(vec![])),
        ])
    };
    let unreadable = row(vec![num(7), num(7), num(7), num(1), num(0), num(0)]);
    w.on_update(&mut catalog, &meta, 1, &[rows("paving_tile_desc", vec![paving(), unreadable])]);
    assert_eq!(catalog.paving.len(), 1);
    assert_eq!(catalog.paving[0].name, "Path");
    assert!(w.on_live(&mut catalog, 1));
    assert!(catalog.ready);
    let gone = LiveTable { name: "paving_tile_desc".to_string(), deletes: vec![paving()], inserts: vec![] };
    w.on_update(&mut catalog, &meta, 1, &[gone]);
    assert!(catalog.paving.is_empty());
    assert!(w.on_reset(&mut catalog, 2));
    assert!(!catalog.ready);
    assert!(!w.on_live(&mut catalog, 1));
    assert!(!catalog.ready);
    assert!(!w.on_reset(&mut catalog, 1));
    assert!(!w.on_update(&mut catalog, &meta, 1, &[]));
}

#[test]
fn the_world_is_ready_when_all_is_sent() {
    let meta = RoadsTableMeta::from_schema_global(&global()).unwrap();
    let mut catalog = GlobalRoadsCatalog::new();
    let mut w = GlobalWorker::new();
    let run = [
        (FeedEvent::Live { generation: 2 }, false, false),
        (FeedEvent::Update { generation: 1, is_seed: true, tables: vec![] }, true, false),
        (FeedEvent::Live { generation: 1 }, true, true),
        (FeedEvent::Reset { generation: 0 }, false, true),
        (FeedEvent::Reset { generation: 1 }, true, false),
        (FeedEvent::Reset { generation: 4 }, true, false),
        (FeedEvent::Live { generation: 1 }, false, false),
        (FeedEvent::Live { generation: 4 }, true, true),
        (FeedEvent::Update { generation: 1, is_seed: false, tables: vec![] }, false, true),
    ];
    for (event, counts, ready) in &run {
        assert_eq!(w.take(&mut catalog, &meta, event), *counts, "{event:?}");
        assert_eq!(catalog.ready, *ready, "{event:?}");
    }
    assert_eq!(w.generation, 4);
}

#[test]
fn maps_are_shown_for_complete_generations_alone() {
    let mut w = worker();
    let meta = w.meta.unwrap();
    let catalog = Arc::new(HarvestableCatalog::new(HarvestableIds::from_ids(&[5])));
    let mut grid = RoadsRegionGrid::new(1, catalog, 1_000);
    let update = |generation: u64, is_seed: bool| FeedEvent::Update { generation, is_seed, tables: seed() };
    let run = [
        (update(2, true), false),
        (update(1, true), false),
        (FeedEvent::Live { generation: 2 }, false),
        (FeedEvent::Live { generation: 1 }, true),
        (update(1, false), true),
        (FeedEvent::Reset { generation: 0 }, true),
        (FeedEvent::Reset { generation: 3 }, false),
        (update(1, false), false),
        (update(3, false), false),
        (FeedEvent::Live { generation: 1 }, false),
        (FeedEvent::Live { generation: 3 }, true),
    ];
    for (event, ready) in &run {
        let (_, step) = w.take(event, 2_000);
        let tables: &[LiveTable] = match event {
            FeedEvent::Update { tables, .. } => tables,
            _ => &[],
        };
        carry_out_maps(step, &mut grid, &meta, tables, 2_000).unwrap();
        assert_eq!(grid.ready, *ready, "{event:?}");
        assert_eq!(get_paving(grid.overlay.get(10, 20)), if *ready { 9 } else { 0 });
    }
    assert_eq!(w.generation, 3);
}
