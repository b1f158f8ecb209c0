use std::sync::Arc;

use bitcraft_mirror::roads::allowlist::HarvestableIds;
use bitcraft_mirror::roads::catalog::{fleet_health, GlobalRoadsCatalog};
use bitcraft_mirror::roads::harvestable::{HarvestableCatalog, MAX_RESOURCE_QUERY_TILES};
use bitcraft_mirror::roads::serve::{roads_region_map, roads_region_resources, MapReply, ResourcesReply};
use bitcraft_mirror::roads::store::{RoadsRegionGrid, RoadsRegionHandle};

fn handle(grid: &RoadsRegionGrid) -> RoadsRegionHandle<'_> {
    RoadsRegionHandle { region: grid.region as u32, grid }
}

fn grid_of(region: u16) -> RoadsRegionGrid {
    RoadsRegionGrid::new(region, Arc::new(HarvestableCatalog::new(HarvestableIds::from_ids(&[3, 5, 66]))), 1_000)
}

/// The tag of a map without anything.
const EMPTY_MAP: &str = "43688af14335d479557f37aa96e6b9ffda594776a785dc84ba763d566fad9cde";

#[test]
fn region_map_route_reaches_handler() {
    assert!(matches!(roads_region_map(Some(&[]), 9, None), MapReply::UnknownRegion { region: 9 }));
}

#[test]
fn region_resources_202_while_loading_then_sparse_lookup() {
    let mut grid = grid_of(9);
    let query = [(10, 20)];
    assert!(matches!(roads_region_resources(Some(&[handle(&grid)]), 9, &query), ResourcesReply::Loading));

    grid.harvestable.upsert(1, 5, 0, Some((10, 20)));
    grid.harvestable.upsert(2, 3, 0, Some((10, 20)));
    grid.mark_ready(2_000);

    let ResourcesReply::Nodes(nodes) = roads_region_resources(Some(&[handle(&grid)]), 9, &query) else {
        panic!("resources were expected");
    };
    let mut ids: Vec<i32> = nodes.iter().map(|n| n.resource_id).collect();
    ids.sort_unstable();
    assert_eq!(ids, vec![3, 5]);
    assert!(nodes.iter().all(|n| n.x == 10 && n.z == 20));
}

#[test]
fn region_resources_rejects_oversize() {
    let mut grid = grid_of(9);
    grid.mark_ready(2_000);
    let query: Vec<(i32, i32)> = (0..=MAX_RESOURCE_QUERY_TILES as i32).map(|i| (i, 0)).collect();
    assert!(matches!(roads_region_resources(Some(&[handle(&grid)]), 9, &query), ResourcesReply::TooMany { count: 16385 }));
    assert!(matches!(roads_region_resources(Some(&[handle(&grid)]), 9, &query[1..]), ResourcesReply::Nodes(_)));
    assert!(matches!(roads_region_resources(Some(&[handle(&grid)]), 8, &query[1..]), ResourcesReply::UnknownRegion { region: 8 }));
    assert!(matches!(roads_region_resources(None, 9, &query[1..]), ResourcesReply::NotEnabled));
}

#[test]
fn a_map_that_is_known_is_not_sent_again() {
    let mut grid = grid_of(9);
    assert!(matches!(roads_region_map(None, 9, None), MapReply::NotEnabled));
    assert!(matches!(roads_region_map(Some(&[handle(&grid)]), 9, None), MapReply::Loading));
    grid.mark_ready(2_000);
    assert!(matches!(roads_region_map(Some(&[handle(&grid)]), 9, Some(EMPTY_MAP)), MapReply::NotModified));
}

#[test]
fn a_map_is_sent_to_who_knows_another() {
    let mut grid = grid_of(9);
    grid.mark_ready(2_000);
    let MapReply::Snapshot(snap) = roads_region_map(Some(&[handle(&grid)]), 9, Some("another")) else {
        panic!("a map was expected");
    };
    assert_eq!(snap.region, 9);
    assert_eq!(snap.etag, EMPTY_MAP);
}

#[test]
fn the_health_of_the_fleet_counts_its_regions() {
    let mut ready = grid_of(9);
    ready.mark_ready(2_000);
    let loading = grid_of(10);
    let health = fleet_health(vec![ready.status(), loading.status()]);
    assert_eq!(health.regions.len(), 2);
    assert_eq!(health.regions_total, 2);
    assert_eq!(health.regions_ready, 1);
    assert!(!health.ready);
    assert_eq!(health.total_memory_bytes, ready.memory_bytes() + loading.memory_bytes());
}

#[test]
fn regions_are_listed_with_their_corner() {
    let catalog = GlobalRoadsCatalog::new();
    let list = catalog.regions_response(&[(14, true)]);
    assert_eq!(list.regions.len(), 1);
    assert_eq!(list.regions[0].id, 14);
    assert_eq!(list.regions[0].name, "Region 14");
    assert_eq!((list.regions[0].rx, list.regions[0].rz), (3, 2));
    assert!(list.regions[0].live);
    assert_eq!((list.regions[0].origin_x, list.regions[0].origin_z), (23040, 15360));
}
