use std::sync::Arc;

use bitcraft_mirror::bitme::hub::LiveTable;
use bitcraft_mirror::bitme::region_store::RegionStore;
use bitcraft_mirror::cell::{Cell, Single};
use bitcraft_mirror::decode::columns::{resolve_cols, ColMaps};
use bitcraft_mirror::feed::{
    FeedEvent, FeedManager, FeedTarget, RegionWorker, RegisterError, Registration, StoreStep,
};
use bitcraft_mirror::id_table::key_of_i32;
use bitcraft_mirror::interest::{InterestHub, Topic};
use bitcraft_mirror::json::Json;
use bitcraft_mirror::roads::allowlist::HarvestableIds;
use bitcraft_mirror::roads::apply::RowInput;
use bitcraft_mirror::roads::harvestable::HarvestableCatalog;
use bitcraft_mirror::schema::{MirroredField, MirroredSchema, MirroredTable, MirroredType, Problem};
use bitcraft_mirror::touches::{apply_live_update, carry_out, clear_store, finalize};

/// The tables that a region has, and their columns.
const TABLES: &[(&str, &[&str])] = &[
    ("claim_state", &["entity_id", "owner_player_entity_id", "owner_building_entity_id", "name", "neutral"]),
    (
        "claim_local_state",
        &[
            "entity_id", "supplies", "building_maintenance", "num_tiles", "location", "treasury",
            "supplies_purchase_threshold", "supplies_purchase_price",
        ],
    ),
    (
        "claim_member_state",
        &[
            "entity_id", "claim_entity_id", "player_entity_id", "user_name", "inventory_permission",
            "build_permission", "officer_permission", "co_owner_permission",
        ],
    ),
    ("claim_tech_state", &["entity_id", "learned", "researching", "start_timestamp"]),
    (
        "claim_tech_desc",
        &[
            "id", "name", "description", "tier", "tech_type", "supplies_cost", "research_time", "requirements",
            "members", "area", "unlocks_techs",
        ],
    ),
    ("claim_tile_cost", &["tile_count", "cost_per_tile"]),
    ("experience_state", &["entity_id", "experience_stacks"]),
    ("skill_desc", &["id", "name", "title", "max_level"]),
    (
        "progressive_action_state",
        &[
            "entity_id", "building_entity_id", "progress", "recipe_id", "craft_count", "owner_entity_id",
        ],
    ),
    ("public_progressive_action_state", &["entity_id", "building_entity_id", "owner_entity_id"]),
    ("passive_craft_state", &["entity_id", "owner_entity_id", "recipe_id", "building_entity_id", "status"]),
    ("crafting_recipe_desc", &["id", "crafted_item_stacks", "actions_required"]),
    ("building_state", &["entity_id", "claim_entity_id", "building_description_id"]),
    (
        "inventory_state",
        &[
            "entity_id", "pockets", "inventory_index", "cargo_index", "owner_entity_id", "player_owner_entity_id",
        ],
    ),
    ("building_desc", &["id", "name", "functions"]),
    ("building_nickname_state", &["entity_id", "nickname"]),
    ("location_state", &["entity_id", "x", "z", "dimension"]),
    ("resource_state", &["entity_id", "resource_id", "direction_index"]),
    ("growth_state", &["entity_id", "end_timestamp", "growth_recipe_id"]),
    ("resource_growth_timer", &["entity_id", "scheduled_at", "growth_recipe_id"]),
    (
        "storage_log_state",
        &[
            "id", "object_entity_id", "subject_entity_id", "subject_name", "data", "timestamp", "days_since_epoch",
        ],
    ),
    (
        "dimension_network_state",
        &[
            "entity_id", "building_id", "claim_entity_id", "rent_entity_id", "entrance_dimension_id", "is_collapsed",
        ],
    ),
    ("player_username_state", &["entity_id", "username"]),
    ("player_state", &["entity_id", "sign_in_timestamp", "session_start_timestamp", "signed_in"]),
    (
        "mobile_entity_state",
        &[
            "entity_id", "timestamp", "location_x", "location_z", "destination_x", "destination_z", "dimension",
            "is_walking",
        ],
    ),
    ("stamina_state", &["entity_id", "last_stamina_decrease_timestamp", "stamina"]),
    ("active_buff_state", &["entity_id", "active_buffs"]),
    (
        "player_action_state",
        &[
            "auto_id", "entity_id", "start_time", "duration", "target", "recipe_id", "action_type", "layer",
            "last_action_result", "client_cancel",
        ],
    ),
    ("resource_health_state", &["entity_id", "health"]),
    (
        "resource_desc",
        &[
            "id", "name", "max_health", "despawn_time", "on_destroy_yield_resource_id", "scheduled_respawn_time",
        ],
    ),
    ("extraction_recipe_desc", &["id", "resource_id"]),
    ("character_stat_desc", &["stat_type", "name"]),
    ("character_stats_state", &["entity_id", "values"]),
    ("deployable_state_v2", &["entity_id", "owner_id", "claim_entity_id", "deployable_description_id", "nickname"]),
    ("deployable_desc", &["id", "name", "deployable_type"]),
    (
        "player_housing_state",
        &[
            "entity_id", "entrance_building_entity_id", "network_entity_id", "rank", "is_empty", "region_index",
        ],
    ),
    ("player_housing_desc", &["secondary_knowledge_id", "rank", "name"]),
    ("rent_state", &["entity_id", "dimension_network_id", "claim_entity_id", "white_list", "active"]),
];

fn schema() -> MirroredSchema {
    let field = |n: &&str| MirroredField { name: Some(n.to_string()), ty: MirroredType::Other };
    let table = |(name, columns): &(&str, &[&str])| MirroredTable {
        name: name.to_string(),
        fields: Some(columns.iter().map(field).collect()),
    };
    MirroredSchema { tables: TABLES.iter().map(table).collect() }
}

fn cols() -> ColMaps {
    resolve_cols(&schema()).unwrap()
}

fn id(n: u64) -> Cell {
    Cell::Bytea(Some(n.to_le_bytes().to_vec()))
}

fn num(n: i32) -> Cell {
    Cell::Integer(Some(n))
}

fn text(t: &str) -> Cell {
    Cell::Text(Some(t.to_string()))
}

fn share(v: f32) -> Cell {
    Cell::Real(Some(Single { bits: v.to_bits() }))
}

fn sum(variant: &str) -> Cell {
    Cell::Jsonb(Json::Object(vec![(variant.to_string(), Json::Object(vec![]))]))
}

/// A row of a table, by the names of its columns.
fn row(table: &str, mut cells: Vec<(&str, Cell)>) -> RowInput {
    let columns = TABLES.iter().find(|(name, _)| *name == table).unwrap().1;
    let mut cell = |c: &&str| {
        let i = cells.iter().position(|(n, _)| n == c).unwrap();
        cells.remove(i).1
    };
    RowInput { bytes: vec![], cells: Some(columns.iter().map(&mut cell).collect()) }
}

fn change(table: &str, deletes: Vec<RowInput>, inserts: Vec<RowInput>) -> LiveTable {
    LiveTable { name: table.to_string(), deletes, inserts }
}

fn username(player: u64, name: &str) -> RowInput {
    row("player_username_state", vec![("entity_id", id(player)), ("username", text(name))])
}

fn desc(resource: i32, next: i32) -> RowInput {
    row(
        "resource_desc",
        vec![
            ("id", num(resource)),
            ("name", text("Oak")),
            ("max_health", num(10)),
            ("despawn_time", share(0.0)),
            ("on_destroy_yield_resource_id", num(next)),
            ("scheduled_respawn_time", share(0.0)),
        ],
    )
}

fn resource(entity: u64, resource: i32) -> RowInput {
    let cells = vec![("entity_id", id(entity)), ("resource_id", num(resource)), ("direction_index", num(0))];
    row("resource_state", cells)
}

#[test]
fn rows_come_to_the_store_and_go() {
    let cols = cols();
    let mut store = RegionStore::empty(7);
    store.apply_tables(&cols, &[change("player_username_state", vec![], vec![username(1, "ada"), username(2, "bob")])]);
    assert_eq!(store.player_username.get(1).map(String::as_str), Some("ada"));

    // What a row was goes before what it is comes.
    let renamed = change("player_username_state", vec![username(1, "ada")], vec![username(1, "eve")]);
    store.apply_tables(&cols, &[renamed]);
    assert_eq!(store.player_username.get(1).map(String::as_str), Some("eve"));
    store.apply_tables(&cols, &[change("player_username_state", vec![username(2, "bob")], vec![])]);
    assert!(store.player_username.get(2).is_none());
    assert_eq!(store.player_username.len(), 1);
}

#[test]
fn unreadable_rows_are_left_out_of_the_store() {
    let cols = cols();
    let mut store = RegionStore::empty(7);
    let short = RowInput { bytes: vec![1, 2, 3], cells: None };
    let odd = row("player_username_state", vec![("entity_id", num(1)), ("username", text("ada"))]);
    let tables = [
        change("player_username_state", vec![], vec![short, odd, username(2, "bob")]),
        change("some_other_table", vec![], vec![RowInput { bytes: vec![], cells: Some(vec![id(3)]) }]),
    ];
    store.apply_tables(&cols, &tables);
    assert_eq!(store.player_username.len(), 1);
    assert!(store.player_username.contains(2));
}

#[test]
fn resources_that_follow_others_are_watched() {
    let cols = cols();
    let mut store = RegionStore::empty(7);
    store.apply_tables(&cols, &[change("resource_desc", vec![], vec![desc(5, 66), desc(66, 0), desc(9, -4)])]);
    assert_eq!(store.desc_of(5).unwrap().on_destroy_yield_resource_id, 66);
    let watched = store.watched_spawns();
    assert_eq!(watched.len(), 2);
    assert!(watched.contains(key_of_i32(66)) && watched.contains(key_of_i32(-4)));
    store.apply_tables(&cols, &[change("resource_desc", vec![desc(5, 66)], vec![])]);
    assert!(!store.watched_spawns().contains(key_of_i32(66)));
}

#[test]
fn entities_of_hexite_deposits_are_kept() {
    let cols = cols();
    let mut store = RegionStore::empty(7);
    let rows = vec![resource(1, 348497955), resource(2, 5), resource(3, 854132798)];
    store.apply_tables(&cols, &[change("resource_state", vec![], rows)]);
    assert_eq!(store.resource.get(1), Some(&348497955));
    assert!(store.resource.get(2).is_none());
    assert_eq!(store.resource.get(3), Some(&854132798));
    store.apply_tables(&cols, &[change("resource_state", vec![resource(1, 348497955)], vec![])]);
    assert_eq!(store.resource.len(), 1);
}

fn action(auto_id: u64, player: u64, kind: &str) -> RowInput {
    row(
        "player_action_state",
        vec![
            ("auto_id", id(auto_id)),
            ("entity_id", id(player)),
            ("action_type", sum(kind)),
            ("layer", sum("Base")),
            ("start_time", id(100)),
            ("duration", id(50)),
            ("target", sum("none")),
            ("recipe_id", sum("none")),
            ("last_action_result", sum("Success")),
            ("client_cancel", Cell::Bool(Some(false))),
        ],
    )
}

#[test]
fn a_player_has_several_actions() {
    let cols = cols();
    let mut store = RegionStore::empty(7);
    let kinds = |s: &RegionStore| -> Vec<String> {
        s.player_action.get(1).map_or(vec![], |l| l.iter().map(|a| a.action_type.clone()).collect())
    };
    let table = |d: Vec<RowInput>, i: Vec<RowInput>| [change("player_action_state", d, i)];
    store.apply_tables(&cols, &table(vec![], vec![action(10, 1, "Extract"), action(11, 1, "Craft")]));
    assert_eq!(kinds(&store), vec!["Extract", "Craft"]);
    store.apply_tables(&cols, &table(vec![], vec![action(10, 1, "None")]));
    assert_eq!(kinds(&store), vec!["Craft", "None"]);
    store.apply_tables(&cols, &table(vec![action(11, 1, "Craft")], vec![]));
    assert_eq!(kinds(&store), vec!["None"]);
    store.apply_tables(&cols, &table(vec![action(10, 1, "None")], vec![]));
    assert!(!store.player_action.contains(1));
}

#[test]
fn a_region_is_registered_with_its_columns() {
    let mut feeds = FeedManager::new();
    match feeds.register_region("bitcraft-live-14", &schema()) {
        Ok(Registration::Region { region, columns }) => {
            assert_eq!(region, 14);
            assert!(columns.roads.is_none());
            assert_eq!(columns.tables.player_username.username, 1);
        }
        _ => panic!("registered otherwise"),
    }
    assert_eq!(feeds.target("bitcraft-live-14"), FeedTarget::Region(14));

    let mut lacking = schema();
    lacking.tables.retain(|t| t.name != "claim_state");
    match feeds.register_region("bitcraft-live-15", &lacking) {
        Err(RegisterError::Schema(e)) => assert_eq!((e.context, e.problem), ("claim_state", Problem::NoTable)),
        _ => panic!("registered otherwise"),
    }
    assert_eq!(feeds.target("bitcraft-live-15"), FeedTarget::Nobody);
}

fn member(entity: u64, player: u64, claim: u64) -> RowInput {
    row(
        "claim_member_state",
        vec![
            ("entity_id", id(entity)),
            ("claim_entity_id", id(claim)),
            ("player_entity_id", id(player)),
            ("user_name", text("ada")),
            ("inventory_permission", Cell::Bool(Some(true))),
            ("build_permission", Cell::Bool(Some(false))),
            ("officer_permission", Cell::Bool(Some(false))),
            ("co_owner_permission", Cell::Bool(Some(false))),
        ],
    )
}

fn members(rows: Vec<RowInput>) -> Vec<LiveTable> {
    vec![change("claim_member_state", vec![], rows)]
}

/// How often the roster of a claim was notified.
fn rosters(hub: &InterestHub, claim: u64) -> u64 {
    hub.generation(Topic::ClaimMembers, claim).unwrap()
}

#[test]
fn memberships_follow_the_rows_of_a_region() {
    let cols = cols();
    let mut hub = InterestHub::new();
    hub.subscribe(Topic::ClaimMembers, 100);
    hub.subscribe(Topic::ClaimMembers, 200);
    let mut left = Vec::new();
    let mut shown = RegionStore::empty(7);
    let mut staging = RegionStore::empty(7);
    staging.apply_tables(&cols, &members(vec![member(1, 10, 100), member(2, 11, 100)]));
    assert_eq!(staging.player_claim_pairs(), vec![(10, 100), (11, 100)]);
    finalize(&mut shown, staging, &mut left, &mut hub);
    assert!(shown.ready);
    hub.notify_member_rosters(10);
    assert_eq!((rosters(&hub, 100), rosters(&hub, 200)), (1, 0));

    // After the region started over, the player belongs to another claim only.
    clear_store(&mut shown, &mut left);
    assert!(!shown.ready);
    assert_eq!(left.len(), 2);
    let mut staging = RegionStore::empty(7);
    staging.apply_tables(&cols, &members(vec![member(1, 10, 200)]));
    finalize(&mut shown, staging, &mut left, &mut hub);
    assert!(left.is_empty());
    hub.notify_member_rosters(10);
    assert_eq!((rosters(&hub, 100), rosters(&hub, 200)), (1, 1));
    hub.notify_member_rosters(11);
    assert_eq!((rosters(&hub, 100), rosters(&hub, 200)), (1, 1));
}

#[test]
fn live_rows_tell_those_who_watch_once() {
    let cols = cols();
    let mut hub = InterestHub::new();
    let mut store = RegionStore::empty(7);
    // Nobody watches: only the membership is kept.
    apply_live_update(&mut store, &cols, &members(vec![member(1, 10, 100)]), &mut hub);
    assert_eq!(hub.lifetime_notifies(), 0);
    hub.subscribe(Topic::ClaimMembers, 100);
    // Two rows of one claim notify its roster once.
    apply_live_update(&mut store, &cols, &members(vec![member(2, 11, 100), member(3, 12, 100)]), &mut hub);
    assert_eq!(rosters(&hub, 100), 1);
    assert_eq!(store.player_claim_pairs().len(), 3);
    // Who signs in shows on the rosters of their claims.
    let signed_in = row(
        "player_state",
        vec![
            ("entity_id", id(10)),
            ("sign_in_timestamp", num(0)),
            ("session_start_timestamp", num(0)),
            ("signed_in", Cell::Bool(Some(true))),
        ],
    );
    apply_live_update(&mut store, &cols, &[change("player_state", vec![], vec![signed_in])], &mut hub);
    assert_eq!(store.player_state.get(10), Some(&true));
    assert_eq!(rosters(&hub, 100), 2);
    // A membership that ended no longer leads to the roster.
    let gone = change("claim_member_state", vec![member(1, 10, 100)], vec![]);
    apply_live_update(&mut store, &cols, &[gone], &mut hub);
    assert_eq!(rosters(&hub, 100), 3);
    hub.notify_member_rosters(10);
    assert_eq!(rosters(&hub, 100), 3);
}

#[test]
fn steps_of_a_worker_are_carried_out() {
    let cols = cols();
    let mut hub = InterestHub::new();
    let (mut shown, mut staging, mut left) = (RegionStore::empty(7), RegionStore::empty(7), Vec::new());
    let first = members(vec![member(1, 10, 100)]);
    let second = members(vec![member(2, 11, 100)]);
    carry_out(StoreStep::Nothing, &mut shown, &mut staging, &mut left, &cols, &first, &mut hub);
    assert_eq!(staging.claim_member.len(), 0);
    carry_out(StoreStep::Collect, &mut shown, &mut staging, &mut left, &cols, &first, &mut hub);
    carry_out(StoreStep::Collect, &mut shown, &mut staging, &mut left, &cols, &second, &mut hub);
    assert_eq!((shown.claim_member.len(), staging.claim_member.len()), (0, 2));
    carry_out(StoreStep::CollectAfresh, &mut shown, &mut staging, &mut left, &cols, &second, &mut hub);
    assert_eq!(staging.player_claim_pairs(), vec![(11, 100)]);
    carry_out(StoreStep::Publish, &mut shown, &mut staging, &mut left, &cols, &[], &mut hub);
    assert!(shown.ready && !staging.ready);
    assert_eq!((shown.claim_member.len(), staging.claim_member.len()), (1, 0));
    carry_out(StoreStep::Apply, &mut shown, &mut staging, &mut left, &cols, &first, &mut hub);
    assert_eq!(shown.claim_member.len(), 2);
    carry_out(StoreStep::Clear, &mut shown, &mut staging, &mut left, &cols, &[], &mut hub);
    assert_eq!((shown.claim_member.len(), left.len()), (0, 2));
}

#[test]
fn rows_are_shown_for_complete_generations_alone() {
    let cols = cols();
    let mut hub = InterestHub::new();
    let (mut shown, mut staging, mut left) = (RegionStore::empty(7), RegionStore::empty(7), Vec::new());
    let catalog = Arc::new(HarvestableCatalog::new(HarvestableIds::from_ids(&[])));
    let mut w = RegionWorker::new(7, None, catalog, 0);
    let update = |generation: u64, entity: u64| FeedEvent::Update {
        generation,
        is_seed: generation == 1,
        tables: members(vec![member(entity, 10 + entity, 100)]),
    };
    let run = [
        (update(1, 1), false, 0),
        (update(2, 2), false, 0),
        (FeedEvent::Live { generation: 2 }, false, 0),
        (FeedEvent::Live { generation: 1 }, true, 1),
        // A filling of a region that is shown is collected aside too.
        (update(1, 3), true, 1),
        (FeedEvent::Live { generation: 1 }, true, 1),
        (FeedEvent::Reset { generation: 2 }, false, 0),
        (update(1, 4), false, 0),
        (update(2, 5), false, 0),
        (update(2, 6), false, 0),
        (FeedEvent::Reset { generation: 1 }, false, 0),
        (FeedEvent::Live { generation: 2 }, true, 2),
        (update(2, 7), true, 3),
    ];
    for (event, ready, rows) in &run {
        let (step, _) = w.take(event, 0);
        let tables: &[LiveTable] = match event {
            FeedEvent::Update { tables, .. } => tables,
            _ => &[],
        };
        carry_out(step, &mut shown, &mut staging, &mut left, &cols, tables, &mut hub);
        assert_eq!((shown.ready, shown.claim_member.len()), (*ready, *rows), "{event:?}");
    }
    assert!(shown.claim_member.get(5).is_some() && shown.claim_member.get(3).is_none());
}
