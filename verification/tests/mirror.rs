use bitcraft_mirror::mirror::apply::{
    mirror_event, plan_external_update, plan_live, plan_seed, ExternalProvenance, MirrorTx, RowStep, SeedApplyProgress,
    SeedChunk, TableOps, PROGRESS_EVERY, SEED_CHUNK_ROWS,
};
use bitcraft_mirror::mirror::create::{creation_order, CreateStep};
use bitcraft_mirror::mirror::dump::{
    path_to_subscribe, query_all, scheme_to_subscribe, subscribe_address, AddressError, Listen, ListenAction,
    ListenEvent, OneOff, OneOffAction, OneOffEvent,
};
use bitcraft_mirror::mirror::observer::ObserverRegistry;
use bitcraft_mirror::mirror::runtime::{
    detect_schema_change, partition_event_tables, plan_tables, resolve_table_ids, should_refetch_schema,
    update_to_mirrored, FetchedSchema, MirrorSessions, SchemaChanged, UpstreamError, UpstreamTable, UpstreamUpdate,
};
use bitcraft_mirror::mirror::shown::{
    dump_v2_update, query_lines, unknown_table, ChangedTable, RowText,
};
use bitcraft_mirror::mirror::supervise::{flush_ids, mirrored_batch, LoopAction, LoopPhase, MirrorLoop};
use bitcraft_mirror::service::{sample_memory, schema_url, setting, PressureChange};
use bitcraft_mirror::url_text::url_fits;

fn strings(names: &[&str]) -> Vec<String> {
    names.iter().map(|n| n.to_string()).collect()
}

#[test]
fn event_tables_partition_into_forwarded_and_excluded() {
    let tables = strings(&[
        "player_state",
        "market_trade_event",
        "player_move_event",
        "claim_treasury_event",
        "enemy_move_event",
        "location_state",
    ]);
    let allowlist = strings(&["market_trade_event", "claim_treasury_event"]);
    let event_tables =
        strings(&["market_trade_event", "player_move_event", "claim_treasury_event", "enemy_move_event"]);

    let (captured, excluded) = partition_event_tables(&tables, &allowlist, &event_tables);
    assert_eq!(captured, vec!["market_trade_event".to_string(), "claim_treasury_event".to_string()]);
    assert_eq!(excluded, vec!["player_move_event".to_string(), "enemy_move_event".to_string()]);
}

#[test]
fn event_partition_uses_schema_truth_not_suffix() {
    // `player_notification_event` is a persistent table despite the
    // suffix: not in the event set -> stays in the subscribe list.
    let tables = strings(&["player_state", "player_notification_event", "craft_event"]);
    let allowlist = strings(&["craft_event"]);
    let event_tables = strings(&["craft_event"]);

    let (captured, excluded) = partition_event_tables(&tables, &allowlist, &event_tables);
    assert_eq!(captured, vec!["craft_event".to_string()]);
    assert!(excluded.is_empty());
}

#[test]
fn event_partition_empty_allowlist_excludes_all_events() {
    let tables = strings(&["player_state", "craft_event"]);
    let event_tables = strings(&["craft_event"]);
    let (captured, excluded) = partition_event_tables(&tables, &[], &event_tables);
    assert!(captured.is_empty());
    assert_eq!(excluded, vec!["craft_event".to_string()]);
}

#[test]
fn event_partition_ignores_allowlist_entries_absent_from_tables() {
    let tables = strings(&["player_state"]);
    let allowlist = strings(&["ghost_event"]);
    let (captured, excluded) = partition_event_tables(&tables, &allowlist, &[]);
    assert!(captured.is_empty());
    assert!(excluded.is_empty());
}

#[test]
fn schema_shaped_errors_trigger_refetch() {
    let errors = [
        UpstreamError::Decode("unknown tag 0x4".into()),
        UpstreamError::Subscription("unknown table".into()),
        UpstreamError::UnknownTable("new_table".into()),
        UpstreamError::NotProduct("changed_table".into()),
        UpstreamError::Apply("row schema mismatch".into()),
        UpstreamError::Closed("module updated".into()),
    ];

    for error in &errors {
        assert!(should_refetch_schema(error), "{error:?} should trigger schema re-fetch");
    }
}

#[test]
fn operational_errors_keep_normal_reconnect_behavior() {
    let errors = [
        UpstreamError::Connect("connection refused".into()),
        UpstreamError::SubscribeTimeout("large_table".into(), 60),
        UpstreamError::SubscribeStalled("large_table".into(), 60),
        UpstreamError::Backlog { queued: 2, max: 1 },
        UpstreamError::ProbeTimeout(30),
    ];

    for error in &errors {
        assert!(!should_refetch_schema(error), "{error:?} should use normal reconnect behavior");
    }
}

#[test]
fn schema_change_error_includes_both_hashes() {
    let error = SchemaChanged {
        database: "bitcraft-live-7".into(),
        old_hash: [0x11; 32],
        new_hash: [0x22; 32],
        old_tables: 274,
        new_tables: 275,
    }
    .message();

    assert!(error.contains(&"11".repeat(32)));
    assert!(error.contains(&"22".repeat(32)));
    assert!(error.contains("tables 274 -> 275"));
}

#[test]
fn a_schema_changed_where_its_digest_did() {
    let decode = UpstreamError::Decode("unknown tag".into());
    let fetched = Some(FetchedSchema { hash: [2; 32], tables: 9 });
    let change = detect_schema_change("db", &decode, fetched, &[1; 32], 8).unwrap();
    assert_eq!((change.old_hash, change.new_hash), ([1; 32], [2; 32]));
    assert_eq!((change.old_tables, change.new_tables), (8, 9));
    assert_eq!(change.database, "db");
    assert!(detect_schema_change("db", &decode, fetched, &[2; 32], 8).is_none());
    assert!(detect_schema_change("db", &decode, None, &[1; 32], 8).is_none());
    let connect = UpstreamError::Connect("refused".into());
    assert!(detect_schema_change("db", &connect, fetched, &[1; 32], 8).is_none());
}

#[test]
fn a_plan_subscribes_to_all_but_unwanted_events() {
    let public = strings(&["a", "b_event", "c_event"]);
    let plan = plan_tables(None, &public, &strings(&["b_event", "ghost"]), &strings(&["b_event", "c_event"])).unwrap();
    assert_eq!(plan.subscribe, strings(&["a", "b_event"]));
    assert_eq!(plan.forwarded, strings(&["b_event"]));
    assert_eq!(plan.excluded, strings(&["c_event"]));
    assert_eq!(plan.unknown, strings(&["ghost"]));
    assert_eq!(plan.flush, strings(&["a"]));
    assert!(plan_tables(None, &[], &[], &[]).is_none());
}

#[test]
fn tables_are_resolved_by_name() {
    let ids = resolve_table_ids(&strings(&["b", "a"]), &[Some(7), Some(8)]).unwrap();
    assert_eq!(ids.get("a"), Some(&8));
    assert_eq!(ids.get("b"), Some(&7));
    assert_eq!(resolve_table_ids(&strings(&["b", "a"]), &[Some(7), None]).err().as_deref(), Some("a"));

    let update = UpstreamUpdate {
        provenance: None,
        tables: vec![
            UpstreamTable { table_name: "a".into(), deletes: vec![vec![1]], inserts: vec![] },
            UpstreamTable { table_name: "other".into(), deletes: vec![], inserts: vec![vec![2]] },
        ],
        is_seed: false,
    };
    let mirrored = update_to_mirrored(update, &ids).unwrap();
    assert_eq!(mirrored.ops.len(), 1);
    assert_eq!(mirrored.ops[0].table_id, 8);
    assert_eq!(mirrored.ops[0].deletes, vec![vec![1]]);
    assert!(!mirrored.is_seed);
}

#[test]
fn waits_double_until_a_session_is_stable() {
    let mut s = MirrorSessions::new(strings(&["a", "b", "c"]));
    let start = s.begin(false);
    assert_eq!(start.generation, 1);
    assert!(!start.pace_seeds);
    let mut waits = Vec::new();
    for _ in 0..7 {
        waits.push(s.end(Some(100), None).sleep_secs);
        assert!(s.begin(false).pace_seeds);
    }
    assert_eq!(waits, vec![1, 2, 4, 8, 16, 30, 30]);
    let end = s.end(Some(5000), Some("b"));
    assert_eq!(end.sleep_secs, 1);
    assert_eq!(end.next_generation, 9);
    assert_eq!(s.table_order, strings(&["b", "a", "c"]));
    assert_eq!(s.end(None, Some("x")).sleep_secs, 2);
    assert_eq!(s.table_order, strings(&["b", "a", "c"]));
    assert!(MirrorSessions::new(vec![]).begin(true).pace_seeds);
}

fn ops(id: u32, deletes: usize, inserts: usize) -> TableOps {
    TableOps { table_id: id, deletes: vec![vec![0]; deletes], inserts: vec![vec![1]; inserts] }
}

/// A table that takes the transactions of a plan.
fn run(table: &mut Vec<Vec<u8>>, update: &[TableOps], is_seed: bool) {
    for tx in plan_external_update(update, is_seed) {
        match tx {
            MirrorTx::Seed { op, chunk } => {
                if chunk.clear {
                    table.clear();
                }
                table.extend_from_slice(&update[op].inserts[chunk.from..chunk.to]);
            }
            MirrorTx::Live { steps } => {
                for step in steps {
                    match step {
                        RowStep::Delete { op, row } => {
                            let gone = &update[op].deletes[row];
                            if let Some(i) = table.iter().position(|r| r == gone) {
                                table.remove(i);
                            }
                        }
                        RowStep::Insert { op, row } => table.push(update[op].inserts[row].clone()),
                    }
                }
            }
        }
    }
}

#[test]
fn a_seed_flushes_its_own_table_alone() {
    let mut a = Vec::new();
    let mut b = Vec::new();
    run(&mut a, &[ops(1, 0, 1)], false);
    run(&mut b, &[ops(1, 0, 1)], false);
    assert_eq!((a.len(), b.len()), (1, 1));
    // An empty seed clears every table it names.
    run(&mut a, &[ops(1, 0, 0)], true);
    assert_eq!((a.len(), b.len()), (0, 1));
    run(&mut b, &[ops(1, 0, 2)], false);
    assert_eq!(b.len(), 3);
}

#[test]
fn seeds_are_cut_into_transactions() {
    assert_eq!(plan_seed(0), vec![SeedChunk { clear: true, from: 0, to: 0 }]);
    assert_eq!(
        plan_seed(SEED_CHUNK_ROWS + 1),
        vec![
            SeedChunk { clear: true, from: 0, to: SEED_CHUNK_ROWS },
            SeedChunk { clear: false, from: SEED_CHUNK_ROWS, to: SEED_CHUNK_ROWS + 1 },
        ]
    );
}

#[test]
fn deletes_come_before_inserts() {
    assert_eq!(
        plan_live(&[ops(1, 1, 1), ops(2, 1, 0)]),
        vec![
            RowStep::Delete { op: 0, row: 0 },
            RowStep::Insert { op: 0, row: 0 },
            RowStep::Delete { op: 1, row: 0 },
        ]
    );
}

#[test]
fn progress_is_told_now_and_then() {
    let mut p = SeedApplyProgress::new();
    for _ in 1..PROGRESS_EVERY {
        assert_eq!(p.tick(), None);
    }
    assert_eq!(p.tick(), Some(PROGRESS_EVERY));
    assert_eq!(p.tick(), None);
}

#[test]
fn events_tell_who_called() {
    let none = None;
    let own = mirror_event(&none, 17);
    assert_eq!(own.timestamp_micros, 17);
    assert!(own.call.is_none());
    let from = Some(ExternalProvenance {
        reducer_name: "move".into(),
        caller_identity: [3; 32],
        caller_connection_id: 9,
        timestamp_micros: 5,
        request_id: 4,
        args: vec![1, 2],
    });
    let event = mirror_event(&from, 17);
    assert_eq!(event.timestamp_micros, 5);
    assert_eq!(event.caller_identity, [3; 32]);
    assert_eq!(event.request_id, Some(4));
    assert_eq!(event.call.unwrap().0, "move");
}

#[test]
fn databases_are_observed_apart() {
    let mut reg = ObserverRegistry::new();
    reg.register("bitcraft-live-3", 1);
    reg.register("bitcraft-live-4", 2);
    reg.register("bitcraft-live-3", 3);
    assert_eq!(reg.observers_for("bitcraft-live-3"), vec![1, 3]);
    assert_eq!(reg.observers_for("bitcraft-live-4"), vec![2]);
    assert!(reg.observers_for("bitcraft-live-5").is_empty());
}

#[test]
fn addresses_of_subscriptions_are_built_from_a_url() {
    assert_eq!(
        subscribe_address("http://127.0.0.1:3007", "bitcraft-live-7").unwrap(),
        "ws://127.0.0.1:3007/v1/database/bitcraft-live-7/subscribe?compression=None"
    );
    assert_eq!(
        subscribe_address("wss://host/base/", "db").unwrap(),
        "wss://host/base/v1/database/db/subscribe?compression=None"
    );
    assert!(matches!(subscribe_address("not a url", "db"), Err(AddressError::NotAUrl)));
    assert!(matches!(subscribe_address("ftp://host", "db"), Err(AddressError::UnsupportedScheme(s)) if s == "ftp"));
    assert_eq!(scheme_to_subscribe("https"), Some("wss"));
    assert_eq!(scheme_to_subscribe("ftp"), None);
    assert_eq!(path_to_subscribe("/base//", "db"), "/base/v1/database/db/subscribe");
    assert_eq!(query_all("player_state"), "SELECT * FROM player_state");
}

#[test]
fn a_url_that_is_too_long_is_refused() {
    assert!(url_fits(20, 100));
    // Twelve bytes for each character, and sixteen for what stands between.
    assert!(url_fits(0xFFFF_FFFF - 16 - 12, 1));
    assert!(!url_fits(0xFFFF_FFFF - 16 - 11, 1));
    let long = "x".repeat(0x0100_0001);
    let address = subscribe_address("http://host", &long).unwrap();
    assert_eq!(address.len(), "ws://host/v1/database//subscribe?compression=None".len() + long.len());
}

#[test]
fn tables_are_asked_for_in_turn() {
    let mut l = Listen::new(2);
    assert_eq!(l.step(ListenEvent::Other), ListenAction::Wait);
    assert_eq!(l.step(ListenEvent::Greeted), ListenAction::Ask { table: 0, id: 1 });
    assert_eq!(l.step(ListenEvent::Applied { id: 2, rows: 5 }), ListenAction::Wait);
    assert_eq!(
        l.step(ListenEvent::Applied { id: 1, rows: 5 }),
        ListenAction::Subscribed { table: 0, rows: 5, next: Some(1) }
    );
    assert_eq!(
        l.step(ListenEvent::Applied { id: 2, rows: 6 }),
        ListenAction::Subscribed { table: 1, rows: 6, next: None }
    );
    assert_eq!(l.step(ListenEvent::Changed { persistent: 3, event: 4 }), ListenAction::Show);
    assert_eq!(l.step(ListenEvent::TimeUp), ListenAction::Summary { persistent: 3, event: 4 });
    assert_eq!(l.step(ListenEvent::Closed), ListenAction::Wait);

    let mut refused = Listen::new(1);
    refused.step(ListenEvent::Greeted);
    assert_eq!(refused.step(ListenEvent::Refused), ListenAction::Fail);

    let mut q = OneOff::Greeting;
    assert_eq!(q.step(OneOffEvent::Rows), OneOffAction::Wait);
    assert_eq!(q.step(OneOffEvent::Greeted), OneOffAction::Ask);
    assert_eq!(q.step(OneOffEvent::Rows), OneOffAction::Show);
    assert_eq!(q.step(OneOffEvent::Closed), OneOffAction::Wait);
}

#[test]
fn schemas_are_fetched_in_the_clear_on_this_machine_alone() {
    assert_eq!(schema_url("127.0.0.1:3000", "db"), "http://127.0.0.1:3000/v1/database/db/schema?version=9");
    assert_eq!(schema_url("host:443", "db"), "https://host:443/v1/database/db/schema?version=9");
    assert_eq!(setting("  x "), Some("x".to_string()));
    assert_eq!(setting("   "), None);
}

#[test]
fn memory_pressure_rises_and_falls() {
    assert_eq!(sample_memory(false, 10, 100), (false, PressureChange::Same));
    assert_eq!(sample_memory(false, 101, 100), (true, PressureChange::Rose));
    assert_eq!(sample_memory(true, 102, 100), (true, PressureChange::Same));
    assert_eq!(sample_memory(true, 10, 100), (false, PressureChange::Fell));
}

#[test]
fn the_tables_to_empty_are_those_that_are_there() {
    let ids = resolve_table_ids(&strings(&["b", "a"]), &[Some(7), Some(8)]).unwrap();
    assert_eq!(flush_ids(&strings(&["a", "gone", "b", "a"]), &ids), vec![8, 7, 8]);
    assert!(flush_ids(&[], &ids).is_empty());
}

fn update_of(table: &str, is_seed: bool) -> UpstreamUpdate {
    let rows = UpstreamTable { table_name: table.into(), deletes: vec![], inserts: vec![vec![1]] };
    UpstreamUpdate { provenance: None, tables: vec![rows], is_seed }
}

#[test]
fn a_batch_leaves_out_updates_without_a_local_table() {
    let ids = resolve_table_ids(&strings(&["a"]), &[Some(8)]).unwrap();
    let batch = mirrored_batch(vec![update_of("a", true), update_of("gone", false), update_of("a", false)], &ids);
    assert_eq!(batch.len(), 2);
    assert!(batch[0].is_seed);
    assert!(!batch[1].is_seed);
    assert_eq!(batch[1].ops[0].table_id, 8);
    assert!(mirrored_batch(vec![update_of("gone", true)], &ids).is_empty());
}

fn mirror() -> MirrorLoop {
    MirrorLoop::new("db".into(), [1; 32], 8, strings(&["a", "b"]), vec![3, 5])
}

/// A mirror that has a slot and its first session.
fn connected() -> MirrorLoop {
    let mut m = mirror();
    m.awake();
    m.permit_taken();
    m.slot_taken(false);
    m
}

#[test]
fn tables_are_emptied_between_two_sessions() {
    let mut m = mirror();
    assert!(matches!(m.awake(), LoopAction::AcquirePermit));
    assert!(matches!(m.slot_taken(false), LoopAction::Nothing));
    assert!(matches!(m.permit_taken(), LoopAction::Acquire));
    assert!(matches!(m.slot_taken(false), LoopAction::Connect { generation: 1, pace_seeds: false }));
    assert!(matches!(m.awake(), LoopAction::Nothing));
    let end = m.session_over(Some(100), Some(UpstreamError::Connect("refused".into())), Some("b"));
    assert!(matches!(end, LoopAction::MarkDown { release_slot: true, sleep_secs: 1 }));
    assert_eq!(m.sessions.table_order, strings(&["b", "a"]));
    assert!(matches!(m.slot_taken(false), LoopAction::Nothing));
    assert!(matches!(m.observers_told(), LoopAction::Nothing));
    match m.marked_down() {
        LoopAction::EmptyTables { tables } => assert_eq!(tables, vec![3, 5]),
        other => panic!("{other:?}"),
    }
    assert!(matches!(m.tables_emptied(), LoopAction::TellObservers { next_generation: 2 }));
    assert!(matches!(m.observers_told(), LoopAction::Sleep { secs: 1 }));
    assert!(matches!(m.awake(), LoopAction::AcquirePermit));
    assert!(matches!(m.permit_taken(), LoopAction::Acquire));
    assert!(matches!(m.slot_taken(false), LoopAction::Connect { generation: 2, pace_seeds: true }));
    assert!(matches!(m.session_over(None, None, None), LoopAction::MarkDown { release_slot: true, sleep_secs: 2 }));
}

#[test]
fn a_slot_is_given_back_when_the_mirror_is_live() {
    let mut m = connected();
    assert!(matches!(m.phase, LoopPhase::Seeding));
    assert!(matches!(m.went_live(), LoopAction::ReleaseSlot));
    assert!(matches!(m.phase, LoopPhase::Following));
    assert!(matches!(m.went_live(), LoopAction::Nothing));
    assert!(matches!(m.session_over(None, None, None), LoopAction::MarkDown { release_slot: false, sleep_secs: 1 }));
}

#[test]
fn a_first_session_beside_others_is_paced() {
    let mut m = mirror();
    m.awake();
    m.permit_taken();
    assert!(matches!(m.slot_taken(true), LoopAction::Connect { generation: 1, pace_seeds: true }));
}

#[test]
fn another_schema_ends_a_mirror_for_good() {
    let mut m = connected();
    let end = m.session_over(None, Some(UpstreamError::Decode("unknown tag".into())), None);
    assert!(matches!(end, LoopAction::MarkDown { release_slot: true, sleep_secs: 1 }));
    assert!(matches!(m.marked_down(), LoopAction::FetchSchema));
    match m.schema_fetched(Some(FetchedSchema { hash: [2; 32], tables: 9 })) {
        LoopAction::Stop(c) => {
            assert_eq!(c.database, "db");
            assert_eq!((c.old_hash, c.new_hash), ([1; 32], [2; 32]));
            assert_eq!((c.old_tables, c.new_tables), (8, 9));
        }
        other => panic!("{other:?}"),
    }
    assert!(matches!(m.awake(), LoopAction::Nothing));
    assert!(matches!(m.slot_taken(false), LoopAction::Nothing));
    assert!(matches!(m.tables_emptied(), LoopAction::Nothing));
    assert!(matches!(m.phase, LoopPhase::Over));
}

#[test]
fn the_same_schema_or_none_lets_a_mirror_go_on() {
    for fetched in [None, Some(FetchedSchema { hash: [1; 32], tables: 8 })] {
        let mut m = connected();
        m.session_over(None, Some(UpstreamError::Closed("module updated".into())), None);
        m.marked_down();
        assert!(matches!(m.schema_fetched(fetched), LoopAction::EmptyTables { .. }));
        assert!(matches!(m.tables_emptied(), LoopAction::TellObservers { next_generation: 2 }));
    }
}

#[test]
fn a_mirror_fails_where_there_are_no_slots_any_more() {
    let mut m = mirror();
    assert!(matches!(m.slots_closed(), LoopAction::Nothing));
    m.awake();
    m.permit_taken();
    assert!(matches!(m.slots_closed(), LoopAction::Fail));
    assert!(matches!(m.phase, LoopPhase::Over));
}

#[test]
fn rows_are_shown_behind_their_tables() {
    let rows = vec![RowText::Shown("(id = 1)".into()), RowText::Unreadable("short".into())];
    let tables = [
        ChangedTable { table_name: "a".into(), event: false, rows: Some(rows) },
        ChangedTable { table_name: "gone".into(), event: false, rows: None },
        ChangedTable { table_name: "b_event".into(), event: true, rows: Some(vec![RowText::Shown("()".into())]) },
    ];
    let shown = dump_v2_update(&tables);
    assert_eq!(shown.lines, strings(&["a (id = 1)", "a <decode error: short>", "b_event ()"]));
    assert_eq!((shown.persistent, shown.event), (2, 1));
}

#[test]
fn an_answer_names_its_table_first() {
    let bytes = vec![vec![0x00u8, 0x0f, 0xff], vec![]];
    assert_eq!(query_lines("t", &bytes), strings(&["table t (2 rows)", "  000fff", "  "]));
    assert_eq!(query_lines("t", &[]), strings(&["table t (0 rows)"]));
}

#[test]
fn a_table_that_is_not_known_is_found() {
    let known = strings(&["a", "b"]);
    assert_eq!(unknown_table(&strings(&["b", "c", "d"]), &known), Some(1));
    assert_eq!(unknown_table(&strings(&["b", "a"]), &known), None);
}

#[test]
fn tables_are_made_by_name_and_before_views() {
    let steps = creation_order(&strings(&["b", "a", "ab"]), &strings(&["z", "y"]));
    let wanted = vec![
        CreateStep::Table(1),
        CreateStep::Table(2),
        CreateStep::Table(0),
        CreateStep::View(1),
        CreateStep::View(0),
    ];
    assert_eq!(steps, wanted);
    assert!(creation_order(&[], &[]).is_empty());
}

#[test]
fn the_failed_table_comes_first_and_events_are_not_emptied() {
    let public = strings(&["a", "b_event", "c", "d"]);
    let plan = plan_tables(None, &public, &strings(&["b_event"]), &strings(&["b_event"])).unwrap();
    assert_eq!(plan.subscribe, strings(&["a", "c", "d", "b_event"]));
    let ids = resolve_table_ids(&plan.subscribe, &[Some(1), Some(2), Some(3), Some(4)]).unwrap();
    let flush = flush_ids(&plan.flush, &ids);
    assert_eq!(flush, vec![1, 2, 3]);
    let mut m = MirrorLoop::new("db".into(), [1; 32], 4, plan.subscribe, flush);
    m.awake();
    m.permit_taken();
    m.slot_taken(false);
    m.went_live();
    m.session_over(Some(5), Some(UpstreamError::Connect("refused".into())), Some("c"));
    match m.marked_down() {
        LoopAction::EmptyTables { tables } => assert_eq!(tables, vec![1, 2, 3]),
        other => panic!("{other:?}"),
    }
    m.tables_emptied();
    m.observers_told();
    m.awake();
    m.permit_taken();
    assert!(matches!(m.slot_taken(false), LoopAction::Connect { generation: 2, .. }));
    assert_eq!(m.sessions.table_order, strings(&["c", "a", "d", "b_event"]));
}
