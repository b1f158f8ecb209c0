use bitcraft_mirror::cell::{
    cell_bool, cell_f32, cell_i16, cell_i32, cell_identity, cell_opt_i32_sum, cell_opt_u64_sum, cell_string, cell_u16,
    cell_u32, cell_u64, cell_u8, decode_action_log_data, decode_buff_entries, decode_consumed_stacks,
    decode_crafted_item_stacks, decode_experience_stacks, decode_i16_array, decode_i32_array, decode_optional_location,
    decode_passive_craft_status, decode_pockets, decode_schedule_at_timestamp, decode_timestamp_micros,
    decode_u64_array, decode_u8_array, deployable_kind_from_cell, functions_is_storage, pascal_to_snake,
    sum_variant_pascal, sum_variant_snake, Cell, DeployableKind, PassiveCraftStatus, Single, ACTION_DEPOSIT,
    ACTION_RESERVED, ACTION_WITHDRAW, CARGO, ITEM,
};
use bitcraft_mirror::decode::columns::{resolve_location_cols, LOCATION_TABLE};
use bitcraft_mirror::decode::fast::{ExtractionRecipeFast, LocationFast, ResourceFast};
use bitcraft_mirror::decode::rows::{
    decode_location_with_fields, identity_hex, is_hexite_resource_id, is_player_skill_id, SKILL_ID_ANY,
};
use bitcraft_mirror::json::{Json, JsonNumber};
use bitcraft_mirror::roads::decode::{
    decode_terraform_recipe, resolve_terraform_recipe_cols, TERRAFORM_RECIPE_DESC_TABLE,
};
use bitcraft_mirror::schema::{
    fixed_field_offset, fixed_width, DecodeError, MirroredField, MirroredSchema, MirroredTable, MirroredType, Problem,
};

fn value(v: &serde_json::Value) -> Json {
    match v {
        serde_json::Value::Null => Json::Null,
        serde_json::Value::Bool(b) => Json::Bool(*b),
        serde_json::Value::Number(n) => Json::Number(JsonNumber {
            int: n.as_i64(),
            uint: n.as_u64(),
            single: (n.as_f64().unwrap() as f32).to_bits(),
        }),
        serde_json::Value::String(s) => Json::Text(s.clone()),
        serde_json::Value::Array(list) => Json::Array(list.iter().map(value).collect()),
        serde_json::Value::Object(o) => Json::Object(o.iter().map(|(k, v)| (k.clone(), value(v))).collect()),
    }
}

fn json(text: &str) -> Cell {
    Cell::Jsonb(value(&serde_json::from_str(text).unwrap()))
}

#[test]
fn any_sentinel_is_not_a_player_skill() {
    assert!(!is_player_skill_id(SKILL_ID_ANY));
    assert!(is_player_skill_id(2)); // Forestry
    assert!(is_player_skill_id(22)); // Hexite Gathering
}

#[test]
fn decode_optional_location_accepts_bare_and_wrapped() {
    let bare = json(r#"{"x": 24521, "z": 18473, "dimension": 1}"#);
    assert_eq!(decode_optional_location(&bare).unwrap(), (true, 24521, 18473, 1));
    let wrapped = json(r#"{"some": {"x": 1, "z": 2, "dimension": 1}}"#);
    assert_eq!(decode_optional_location(&wrapped).unwrap(), (true, 1, 2, 1));
    assert_eq!(decode_optional_location(&Cell::Jsonb(Json::Null)).unwrap(), (false, 0, 0, 0));
}

#[test]
fn decode_pockets_walks_mixed_array() {
    // Each option renders as {"some": payload} or {"none": {}}, and the
    // Item/Cargo sum renders as {"Item": {}} / {"Cargo": {}}.
    let cell = json(
        r#"[
        {"volume": 100,  "contents": {"some": {"item_id": 1020003, "quantity": 50, "item_type": {"Item": {}},  "durability": {"some": 100}}}, "locked": false},
        {"volume": 0,    "contents": {"none": {}},                                                                                              "locked": false},
        {"volume": 6000, "contents": {"some": {"item_id": 5001,    "quantity": 1,  "item_type": {"Cargo": {}}, "durability": {"none": {}}}},  "locked": false}
    ]"#,
    );
    let pockets = decode_pockets(&cell).unwrap();
    assert_eq!(pockets.len(), 3);
    assert!(pockets[0].has_contents);
    assert_eq!(pockets[0].item_id, 1020003);
    assert_eq!(pockets[0].quantity, 50);
    assert_eq!(pockets[0].item_type, ITEM);
    assert!(pockets[0].has_durability);
    assert_eq!(pockets[0].durability, 100);

    assert!(!pockets[1].has_contents);

    assert!(pockets[2].has_contents);
    assert_eq!(pockets[2].item_id, 5001);
    assert_eq!(pockets[2].item_type, CARGO);
    assert!(!pockets[2].has_durability);
}

#[test]
fn decode_pockets_handles_empty_array() {
    let cell = json("[]");
    let pockets = decode_pockets(&cell).unwrap();
    assert!(pockets.is_empty());
}

#[test]
fn decode_pockets_rejects_non_array() {
    let cell = json(r#"{"not": "an array"}"#);
    assert!(decode_pockets(&cell).is_err());
}

#[test]
fn decode_pockets_rejects_unknown_item_type() {
    let cell = json(
        r#"[
        {"volume": 1, "contents": {"some": {"item_id": 1, "quantity": 1, "item_type": {"Quest": {}}, "durability": {"none": {}}}}, "locked": false}
    ]"#,
    );
    let err = decode_pockets(&cell).unwrap_err();
    assert!(err.context.contains("item_type"));
}

#[test]
fn decode_crafted_item_stacks_walks_item_and_cargo() {
    let cell = json(
        r#"[
        {"item_id": 11006, "quantity": 10, "item_type": {"Item": {}}, "durability": {"none": {}}},
        {"item_id": 5001, "quantity": 1, "item_type": {"Cargo": {}}, "durability": {"some": 0}}
    ]"#,
    );
    let stacks = decode_crafted_item_stacks(&cell).unwrap();
    assert_eq!(stacks.len(), 2);
    assert_eq!(stacks[0].item_id, 11006);
    assert_eq!(stacks[0].quantity, 10);
    assert_eq!(stacks[0].item_type, ITEM);
    assert_eq!(stacks[1].item_id, 5001);
    assert_eq!(stacks[1].item_type, CARGO);
}

#[test]
fn functions_is_storage_detects_slots() {
    let storage = json(r#"[{"function_type": 3, "storage_slots": 18, "cargo_slots": 0}]"#);
    assert!(functions_is_storage(&storage).unwrap());

    let cargo = json(r#"[{"function_type": 4, "storage_slots": 0, "cargo_slots": 8}]"#);
    assert!(functions_is_storage(&cargo).unwrap());

    let totem = json(r#"[{"function_type": 28, "storage_slots": 0, "cargo_slots": 0}]"#);
    assert!(!functions_is_storage(&totem).unwrap());

    let empty = json("[]");
    assert!(!functions_is_storage(&empty).unwrap());
}

#[test]
fn deployable_kind_recognizes_boat() {
    assert_eq!(deployable_kind_from_cell(&json(r#"{"Boat": {}}"#)).unwrap(), DeployableKind::Boat);
    assert_eq!(deployable_kind_from_cell(&json(r#"{"Mount": {}}"#)).unwrap(), DeployableKind::Mount);
    assert_eq!(deployable_kind_from_cell(&json(r#"{"Stall": {}}"#)).unwrap(), DeployableKind::Other);
}

fn field(name: &str, ty: MirroredType) -> MirroredField {
    MirroredField { name: Some(name.to_string()), ty }
}

fn terraform_schema() -> MirroredSchema {
    MirroredSchema {
        tables: vec![MirroredTable {
            name: TERRAFORM_RECIPE_DESC_TABLE.to_string(),
            fields: Some(vec![
                field("difference", MirroredType::I16),
                field("actions_count", MirroredType::I32),
                field("stamina_per_action", MirroredType::F32),
                field("time_per_action", MirroredType::F32),
            ]),
        }],
    }
}

fn single(v: f32) -> Single {
    Single { bits: v.to_bits() }
}

#[test]
fn terraform_recipe_decodes_i16_difference() {
    let schema = terraform_schema();
    let cols = resolve_terraform_recipe_cols(&schema).expect("cols");
    let row = [
        Cell::Smallint(Some(-4)),
        Cell::Integer(Some(8)),
        Cell::Real(Some(single(1.5))),
        Cell::Real(Some(single(0.25))),
    ];
    let decoded = decode_terraform_recipe(&row, cols).expect("decode");
    assert_eq!(decoded.difference, -4);
    assert_eq!(decoded.actions_count, 8);
    assert_eq!(decoded.stamina_per_action, single(1.5));
    assert_eq!(decoded.time_per_action, single(0.25));
}

#[test]
fn missing_tables_and_columns_are_told() {
    let none = MirroredSchema { tables: vec![] };
    assert_eq!(resolve_terraform_recipe_cols(&none).unwrap_err().problem, Problem::NoTable);
    let odd = MirroredSchema {
        tables: vec![MirroredTable { name: TERRAFORM_RECIPE_DESC_TABLE.to_string(), fields: None }],
    };
    assert_eq!(resolve_terraform_recipe_cols(&odd).unwrap_err().problem, Problem::NotProduct);
    let mut short = terraform_schema();
    short.tables[0].fields.as_mut().unwrap().pop();
    assert_eq!(
        resolve_terraform_recipe_cols(&short).unwrap_err(),
        DecodeError {
            context: TERRAFORM_RECIPE_DESC_TABLE,
            outer: None,
            inner: None,
            problem: Problem::NoColumn { column: "time_per_action" },
        }
    );
}

#[test]
fn numbers_keep_their_range() {
    assert_eq!(cell_u64(&Cell::Bytea(Some(vec![1, 2, 0, 0, 0, 0, 0, 0])), "c"), Ok(513));
    assert_eq!(cell_u64(&Cell::Bytea(Some(vec![255; 8])), "c"), Ok(u64::MAX));
    assert_eq!(cell_u64(&Cell::Bytea(Some(vec![1; 7])), "c").unwrap_err().problem, Problem::BadLength);
    assert_eq!(cell_u64(&Cell::Bytea(None), "c").unwrap_err().problem, Problem::Null);
    assert_eq!(cell_u32(&Cell::Bigint(Some(7)), "c"), Ok(7));
    assert_eq!(cell_u32(&Cell::Bigint(Some(1 << 32)), "c").unwrap_err().problem, Problem::OutOfRange);
    assert_eq!(cell_i32(&Cell::Integer(Some(-7)), "c"), Ok(-7));
    assert_eq!(cell_i16(&Cell::Smallint(Some(3)), "c"), Ok(3));
    assert_eq!(cell_bool(&Cell::Bool(Some(true)), "c"), Ok(true));
    assert_eq!(cell_string(&Cell::Text(Some("oak".to_string())), "c"), Ok("oak".to_string()));
    assert_eq!(cell_f32(&Cell::Real(Some(single(0.5))), "c"), Ok(single(0.5)));
    assert_eq!(cell_f32(&Cell::Real(None), "c").unwrap_err().problem, Problem::Null);
    assert_eq!(cell_u8(&Cell::Smallint(Some(200)), "c"), Ok(200));
    assert_eq!(cell_u8(&Cell::Smallint(Some(300)), "c").unwrap_err().problem, Problem::OutOfRange);
    assert_eq!(cell_u16(&Cell::Integer(Some(-1)), "c").unwrap_err().problem, Problem::OutOfRange);
    assert_eq!(cell_bool(&Cell::Integer(Some(1)), "c").unwrap_err().problem, Problem::WrongType);
    assert_eq!(cell_identity(&Cell::Bytea(Some(vec![0; 31])), "c").unwrap_err().problem, Problem::BadLength);
    assert_eq!(cell_identity(&Cell::Bytea(Some(vec![9; 32])), "c"), Ok([9; 32]));
}

#[test]
fn sums_are_read_by_their_variant() {
    assert_eq!(cell_opt_u64_sum(&json(r#"{"some": "0500000000000000"}"#), "c"), Ok(Some(5)));
    assert_eq!(cell_opt_u64_sum(&json(r#"{"some": "05"}"#), "c").unwrap_err().problem, Problem::BadLength);
    assert_eq!(cell_opt_u64_sum(&json(r#"{"some": "0g"}"#), "c").unwrap_err().problem, Problem::BadHex);
    assert_eq!(cell_opt_u64_sum(&json(r#"{"none": {}}"#), "c"), Ok(None));
    assert_eq!(cell_opt_u64_sum(&json(r#"{"other": 5}"#), "c").unwrap_err().problem, Problem::UnknownVariant);
    assert_eq!(cell_opt_i32_sum(&json(r#"{"some": -5}"#), "c"), Ok(Some(-5)));
    assert_eq!(cell_opt_i32_sum(&json(r#"{"some": 3000000000}"#), "c").unwrap_err().problem, Problem::OutOfRange);
    assert_eq!(sum_variant_pascal(&json(r#"{"MarketMode": {}}"#), "c"), Ok("MarketMode".to_string()));
    assert_eq!(sum_variant_snake(&json(r#"{"MarketMode": {}}"#), "c"), Ok("market_mode".to_string()));
    assert_eq!(sum_variant_pascal(&json("{}"), "c").unwrap_err().problem, Problem::EmptySum);
    assert_eq!(pascal_to_snake("HexCoinHUD"), "hex_coin_h_u_d");
}

#[test]
fn lists_are_read_entry_by_entry() {
    assert_eq!(decode_u64_array(&json(r#"["0100000000000000", "0002000000000000"]"#), "c"), Ok(vec![1, 512]));
    assert_eq!(decode_i32_array(&json("[-1, 2]"), "c"), Ok(vec![-1, 2]));
    let e = decode_i32_array(&json(r#"[1, "x"]"#), "c").unwrap_err();
    assert_eq!(e.outer, Some(1));
    let e = decode_u64_array(&json(r#"["01"]"#), "c").unwrap_err();
    assert_eq!((e.outer, e.problem), (Some(0), Problem::BadLength));
}

#[test]
fn times_are_read_in_microseconds() {
    assert_eq!(
        decode_timestamp_micros(&json(r#"{"__timestamp_micros_since_unix_epoch__": 17}"#), "c"),
        Ok(17)
    );
    assert_eq!(
        decode_schedule_at_timestamp(&json(r#"{"Time": {"__timestamp_micros_since_unix_epoch__": 17}}"#), "c"),
        Ok(Some(17))
    );
}

#[test]
fn fixed_rows_are_read_by_offset() {
    let fields = vec![
        field("entity_id", MirroredType::U64),
        field("resource_id", MirroredType::I32),
        field("direction_index", MirroredType::I32),
    ];
    assert_eq!(fixed_width(MirroredType::U64), Some(8));
    assert_eq!(fixed_field_offset(&fields, "direction_index"), Some(12));
    let fast = ResourceFast::try_from_fields(&fields).unwrap();
    let mut row = Vec::new();
    row.extend_from_slice(&77u64.to_le_bytes());
    row.extend_from_slice(&(-5i32).to_le_bytes());
    row.extend_from_slice(&3i32.to_le_bytes());
    let r = fast.decode(&row).unwrap();
    assert_eq!((r.entity_id, r.resource_id, r.direction_index), (77, -5, 3));
    assert!(fast.decode(&row[..15]).is_none());

    let loc = LocationFast::try_from_fields(&[
        field("entity_id", MirroredType::U64),
        field("chunk_index", MirroredType::U64),
        field("x", MirroredType::I32),
        field("z", MirroredType::I32),
        field("dimension", MirroredType::U32),
    ])
    .unwrap();
    let mut row = Vec::new();
    row.extend_from_slice(&1u64.to_le_bytes());
    row.extend_from_slice(&2u64.to_le_bytes());
    row.extend_from_slice(&3i32.to_le_bytes());
    row.extend_from_slice(&(-4i32).to_le_bytes());
    row.extend_from_slice(&5u32.to_le_bytes());
    let r = loc.decode(&row).unwrap();
    assert_eq!((r.entity_id, r.x, r.z, r.dimension), (1, 3, -4, 5));

    assert!(ExtractionRecipeFast::try_from_fields(&[field("id", MirroredType::I32)]).is_none());
    // A column of another type is not read by position.
    let narrow = [field("id", MirroredType::U16), field("resource_id", MirroredType::I32)];
    assert!(ExtractionRecipeFast::try_from_fields(&narrow).is_none());
    let wide = [field("id", MirroredType::I32), field("resource_id", MirroredType::I32)];
    assert!(ExtractionRecipeFast::try_from_fields(&wide).is_some());
}

#[test]
fn identities_are_written_most_significant_byte_first() {
    let mut id = [0u8; 32];
    id[0] = 0xab;
    id[31] = 0x01;
    let text = identity_hex(id);
    assert_eq!(text.len(), 64);
    assert!(text.starts_with("01"));
    assert!(text.ends_with("ab"));
}

#[test]
fn narrow_lists_keep_their_range() {
    assert_eq!(decode_i16_array(&json("[-1, 2]"), "c"), Ok(vec![-1, 2]));
    assert_eq!(decode_u8_array(&json("[0, 255]"), "c"), Ok(vec![0, 255]));
    assert_eq!(decode_u8_array(&json("[256]"), "c").unwrap_err().problem, Problem::OutOfRange);
    assert_eq!(decode_experience_stacks(&json(r#"[{"skill_id": 2, "quantity": 30}]"#)), Ok(vec![(2, 30)]));
    assert_eq!(
        decode_experience_stacks(&json(r#"[{"skill_id": 2}]"#)).unwrap_err().problem,
        Problem::Missing
    );
}

#[test]
fn storage_log_tells_the_action() {
    let stack = r#"{"item_id": 7, "quantity": 3, "item_type": {"Cargo": {}}}"#;
    let log = |name: &str| json(&format!("{{\"{name}\": {stack}}}"));
    assert_eq!(decode_action_log_data(&log("DepositItem")), Ok((ACTION_DEPOSIT, 7, CARGO, 3)));
    assert_eq!(decode_action_log_data(&log("WithdrawItem")), Ok((ACTION_WITHDRAW, 7, CARGO, 3)));
    let reserved = json(&format!("{{\"Reserved\": {{\"item1\": {stack}}}}}"));
    assert_eq!(decode_action_log_data(&reserved), Ok((ACTION_RESERVED, 7, CARGO, 3)));
    assert_eq!(decode_action_log_data(&log("Melt")).unwrap_err().problem, Problem::UnknownVariant);
}

#[test]
fn crafts_buffs_and_pavings_are_read() {
    assert_eq!(decode_passive_craft_status(&json(r#"{"Complete": {}}"#)), Ok(PassiveCraftStatus::Complete));
    assert!(PassiveCraftStatus::Complete.is_complete());
    assert!(!PassiveCraftStatus::Queued.is_complete());

    let buffs = decode_buff_entries(&json(
        r#"[{"buff_id": 1, "buff_start_timestamp": {"value": 100}, "buff_duration": 60, "values": [0.5]}]"#,
    ))
    .unwrap();
    assert_eq!(buffs.len(), 1);
    assert_eq!((buffs[0].buff_id, buffs[0].start_timestamp, buffs[0].duration), (1, 100, 60));
    assert_eq!(buffs[0].values, vec![single(0.5)]);

    assert_eq!(
        decode_consumed_stacks(&json(r#"[{"item_id": 4, "quantity": 2, "item_type": {"Cargo": {}}}]"#), "c"),
        Ok(vec![(4, 2, true)])
    );
    assert_eq!(decode_consumed_stacks(&json("null"), "c"), Ok(vec![]));
}

#[test]
fn hexite_is_told_apart() {
    assert!(is_hexite_resource_id(348497955));
    assert!(!is_hexite_resource_id(5));
}

#[test]
fn a_location_reads_the_same_by_offset_and_by_cell() {
    let fields = vec![
        field("entity_id", MirroredType::U64),
        field("chunk_index", MirroredType::U64),
        field("x", MirroredType::I32),
        field("z", MirroredType::I32),
        field("dimension", MirroredType::U32),
    ];
    let fast = LocationFast::try_from_fields(&fields).unwrap();
    let table = MirroredTable { name: LOCATION_TABLE.to_string(), fields: Some(fields) };
    let cols = resolve_location_cols(&MirroredSchema { tables: vec![table] }).unwrap();
    for (e, x, z, d) in [(1u64, 3i32, -4i32, 5u32), (u64::MAX, i32::MIN, i32::MAX, u32::MAX), (0, 0, 0, 0)] {
        let mut row = Vec::new();
        row.extend_from_slice(&e.to_le_bytes());
        row.extend_from_slice(&9u64.to_le_bytes());
        row.extend_from_slice(&x.to_le_bytes());
        row.extend_from_slice(&z.to_le_bytes());
        row.extend_from_slice(&d.to_le_bytes());
        let cells = vec![
            Cell::Bytea(Some(e.to_le_bytes().to_vec())),
            Cell::Bytea(Some(9u64.to_le_bytes().to_vec())),
            Cell::Integer(Some(x)),
            Cell::Integer(Some(z)),
            Cell::Bigint(Some(d as i64)),
        ];
        let a = fast.decode(&row).unwrap();
        let b = decode_location_with_fields(&cells, cols).unwrap();
        assert_eq!((a.entity_id, a.x, a.z, a.dimension), (e, x, z, d));
        assert_eq!((b.entity_id, b.x, b.z, b.dimension), (e, x, z, d));
    }
}
