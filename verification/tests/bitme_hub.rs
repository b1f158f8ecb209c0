use bitcraft_mirror::bitme::hub::{
    BitmeHub, BitmeRegionMeta, LiveTable, Moment, SPAWN_CAP, SPAWN_TTL_MS, TARGET_TTL_MS,
};
use bitcraft_mirror::cell::Cell;
use bitcraft_mirror::decode::columns::{RESOURCE_HEALTH_TABLE, RESOURCE_TABLE};
use bitcraft_mirror::id_table::{key_of_i32, IdTable};
use bitcraft_mirror::roads::apply::RowInput;
use bitcraft_mirror::schema::{MirroredField, MirroredSchema, MirroredTable, MirroredType, Problem};

const CITRIC_BUSH: i32 = 1_688_062_540;

fn field(name: &str, ty: MirroredType) -> MirroredField {
    MirroredField { name: Some(name.to_string()), ty }
}

fn schema() -> MirroredSchema {
    MirroredSchema {
        tables: vec![
            MirroredTable {
                name: RESOURCE_HEALTH_TABLE.to_string(),
                fields: Some(vec![field("entity_id", MirroredType::U64), field("health", MirroredType::I32)]),
            },
            MirroredTable {
                name: RESOURCE_TABLE.to_string(),
                fields: Some(vec![
                    field("entity_id", MirroredType::U64),
                    field("resource_id", MirroredType::I32),
                    field("direction_index", MirroredType::I32),
                ]),
            },
        ],
    }
}

fn health(entity: u64, health: i32) -> RowInput {
    RowInput {
        bytes: vec![],
        cells: Some(vec![Cell::Bytea(Some(entity.to_le_bytes().to_vec())), Cell::Integer(Some(health))]),
    }
}

fn resource(entity: u64, id: i32) -> RowInput {
    let mut bytes = entity.to_le_bytes().to_vec();
    bytes.extend_from_slice(&id.to_le_bytes());
    bytes.extend_from_slice(&0i32.to_le_bytes());
    RowInput { bytes, cells: None }
}

fn table(name: &str, deletes: Vec<RowInput>, inserts: Vec<RowInput>) -> LiveTable {
    LiveTable { name: name.to_string(), deletes, inserts }
}

fn watched() -> IdTable<()> {
    let mut t = IdTable::new();
    t.insert(key_of_i32(CITRIC_BUSH), ());
    t
}

#[test]
fn session_touch_and_cap() {
    let mut hub = BitmeHub::new();
    hub.touch_session(1, 0);
    hub.touch_session(2, 1);
    hub.touch_session(1, 2); // refresh, no dup
    assert_eq!(hub.session_count(), 2);
}

#[test]
fn targets_track_and_report_health() {
    let mut hub = BitmeHub::new();
    hub.note_targets(&[10, 20], 0);
    assert_eq!(hub.target_health(10), None);
    assert_eq!(hub.target_health(30), None);
    assert_eq!(hub.target_count(), 2);
    // note_targets is idempotent.
    hub.note_targets(&[10], 1);
    assert_eq!(hub.target_count(), 2);
}

#[test]
fn spawn_log_ttl_and_dedup_by_delete() {
    let mut hub = BitmeHub::new();
    let meta = BitmeRegionMeta::from_schema(&schema()).unwrap();
    let at = Moment { steady_ms: 0, unix_ms: 1_000_000_000 };
    hub.observe_live(7, &[table(RESOURCE_TABLE, vec![], vec![resource(100, CITRIC_BUSH)])], &meta, &watched(), at);
    assert_eq!(hub.spawns(7, at.unix_ms).len(), 1);
    assert_eq!(hub.spawns(7, at.unix_ms)[0].resource_id, CITRIC_BUSH);
    hub.clear_region(7);
    assert!(hub.spawns(7, at.unix_ms).is_empty());
}

#[test]
fn health_is_kept_for_targets_alone() {
    let mut hub = BitmeHub::new();
    let meta = BitmeRegionMeta::from_schema(&schema()).unwrap();
    let at = Moment { steady_ms: 5, unix_ms: 0 };
    hub.note_targets(&[10, 0], 0);
    assert_eq!(hub.target_count(), 1);
    hub.observe_live(
        7,
        &[table(RESOURCE_HEALTH_TABLE, vec![], vec![health(10, 85), health(11, 40)])],
        &meta,
        &watched(),
        at,
    );
    assert_eq!(hub.target_health(10), Some(85));
    assert_eq!(hub.target_health(11), None);
    hub.observe_live(7, &[table(RESOURCE_HEALTH_TABLE, vec![health(10, 85)], vec![])], &meta, &watched(), at);
    assert_eq!(hub.target_health(10), None);
    assert_eq!(hub.target_count(), 1);
}

#[test]
fn spawns_age_and_go() {
    let mut hub = BitmeHub::new();
    let meta = BitmeRegionMeta::from_schema(&schema()).unwrap();
    let at = Moment { steady_ms: 0, unix_ms: 10_000_000 };
    let rows = vec![resource(1, CITRIC_BUSH), resource(2, 5), resource(3, CITRIC_BUSH)];
    hub.observe_live(7, &[table(RESOURCE_TABLE, vec![], rows)], &meta, &watched(), at);
    assert_eq!(hub.spawns(7, at.unix_ms).iter().map(|s| s.entity_id).collect::<Vec<u64>>(), vec![1, 3]);
    assert_eq!(hub.spawns(7, at.unix_ms + SPAWN_TTL_MS).len(), 2);
    assert!(hub.spawns(7, at.unix_ms + SPAWN_TTL_MS + 1).is_empty());
    hub.observe_live(7, &[table(RESOURCE_TABLE, vec![resource(1, CITRIC_BUSH)], vec![])], &meta, &watched(), at);
    assert_eq!(hub.spawns(7, at.unix_ms).len(), 1);
    let stats = hub.stats(at.unix_ms);
    assert_eq!((stats.sessions, stats.tracked_targets), (0, 0));
    assert_eq!(stats.spawns, vec![(7, 1)]);
}

#[test]
fn the_spawn_log_is_bounded() {
    let mut hub = BitmeHub::new();
    let meta = BitmeRegionMeta::from_schema(&schema()).unwrap();
    let at = Moment { steady_ms: 0, unix_ms: 10_000_000 };
    for i in 0..(SPAWN_CAP as u64 + 3) {
        hub.observe_live(7, &[table(RESOURCE_TABLE, vec![], vec![resource(i, CITRIC_BUSH)])], &meta, &watched(), at);
    }
    let spawns = hub.spawns(7, at.unix_ms);
    assert_eq!(spawns.len(), SPAWN_CAP);
    assert_eq!(spawns[0].entity_id, 3);
}

#[test]
fn old_targets_go_when_sessions_are_swept() {
    let mut hub = BitmeHub::new();
    hub.note_targets(&[10], 0);
    for i in 0..8192u64 {
        hub.touch_session(i + 1, 0);
    }
    assert_eq!(hub.session_count(), 8192);
    hub.touch_session(9000, TARGET_TTL_MS);
    assert_eq!(hub.session_count(), 1);
    assert_eq!(hub.target_count(), 0);
}

#[test]
fn the_quietest_session_makes_room() {
    let mut hub = BitmeHub::new();
    for i in 0..8192u64 {
        hub.touch_session(i + 1, i);
    }
    hub.touch_session(9000, 8192);
    assert_eq!(hub.session_count(), 8192);
    hub.touch_session(3, 8193);
    assert_eq!(hub.session_count(), 8191);
}

#[test]
fn a_schema_without_the_tables_is_refused() {
    let empty = MirroredSchema { tables: vec![] };
    assert_eq!(BitmeRegionMeta::from_schema(&empty).unwrap_err().problem, Problem::NoTable);
}

#[test]
fn the_last_row_tells_the_health() {
    let mut hub = BitmeHub::new();
    let meta = BitmeRegionMeta::from_schema(&schema()).unwrap();
    let at = Moment { steady_ms: 5, unix_ms: 0 };
    hub.note_targets(&[10], 0);
    let told = |hub: &mut BitmeHub, deletes: Vec<RowInput>, inserts: Vec<RowInput>| {
        hub.observe_live(7, &[table(RESOURCE_HEALTH_TABLE, deletes, inserts)], &meta, &watched(), at);
        hub.target_health(10)
    };
    assert_eq!(told(&mut hub, vec![], vec![health(10, 85), health(11, 1), health(10, 60)]), Some(60));
    // Rows go before others come.
    assert_eq!(told(&mut hub, vec![health(10, 60)], vec![health(10, 40)]), Some(40));
    assert_eq!(told(&mut hub, vec![health(11, 1)], vec![]), Some(40));
    assert_eq!(told(&mut hub, vec![health(10, 40)], vec![health(11, 2)]), None);
}
