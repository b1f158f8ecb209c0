use bitcraft_mirror::cell::{Cell, CraftedItemStack, DeployableKind, PassiveCraftStatus, Single, ACTION_DEPOSIT, ITEM};
use bitcraft_mirror::decode::columns as cols;
use bitcraft_mirror::decode::rows;
use bitcraft_mirror::json::{Json, JsonNumber};
use bitcraft_mirror::schema::{MirroredField, MirroredSchema, MirroredTable, MirroredType, Problem};

fn value(v: &serde_json::Value) -> Json {
    match v {
        serde_json::Value::Null => Json::Null,
        serde_json::Value::Bool(b) => Json::Bool(*b),
        serde_json::Value::Number(n) => Json::Number(JsonNumber {
            int: n.as_i64(),
            uint: n.as_u64(),
            single: (n.as_f64().unwrap() as f32).to_bits(),
        }),
        serde_json::Value::String(s) => Json::Text(s.clone()),
        serde_json::Value::Array(list) => Json::Array(list.iter().map(value).collect()),
        serde_json::Value::Object(o) => Json::Object(o.iter().map(|(k, v)| (k.clone(), value(v))).collect()),
    }
}

fn json(text: &str) -> Cell {
    Cell::Jsonb(value(&serde_json::from_str(text).unwrap()))
}

fn id(n: u64) -> Cell {
    Cell::Bytea(Some(n.to_le_bytes().to_vec()))
}

fn num(n: i32) -> Cell {
    Cell::Integer(Some(n))
}

fn big(n: i64) -> Cell {
    Cell::Bigint(Some(n))
}

fn yes(b: bool) -> Cell {
    Cell::Bool(Some(b))
}

fn text(t: &str) -> Cell {
    Cell::Text(Some(t.to_string()))
}

fn bits(v: f32) -> Single {
    Single { bits: v.to_bits() }
}

fn share(v: f32) -> Cell {
    Cell::Real(Some(bits(v)))
}

/// A table whose columns stand behind another one, in reverse, and its row.
fn table(name: &str, columns: Vec<(&str, Cell)>) -> (MirroredSchema, Vec<Cell>) {
    let mut fields = vec![MirroredField { name: Some("unread".to_string()), ty: MirroredType::Other }];
    let mut cells = vec![Cell::Jsonb(Json::Null)];
    for (column, cell) in columns.into_iter().rev() {
        fields.push(MirroredField { name: Some(column.to_string()), ty: MirroredType::Other });
        cells.push(cell);
    }
    (MirroredSchema { tables: vec![MirroredTable { name: name.to_string(), fields: Some(fields) }] }, cells)
}

#[test]
fn claims_are_read() {
    let (s, c) = table(
        cols::CLAIM_TABLE,
        vec![
            ("entity_id", id(1)),
            ("owner_player_entity_id", id(2)),
            ("owner_building_entity_id", id(3)),
            ("name", text("Oak")),
            ("neutral", yes(true)),
        ],
    );
    let r = rows::decode_claim_with_fields(&c, cols::resolve_claim_cols(&s).unwrap()).unwrap();
    assert_eq!((r.entity_id, r.owner_player_entity_id, r.owner_building_entity_id), (1, 2, 3));
    assert_eq!((r.name.as_str(), r.neutral), ("Oak", true));

    let (s, c) = table(
        cols::CLAIM_LOCAL_TABLE,
        vec![
            ("entity_id", id(1)),
            ("supplies", num(2)),
            ("building_maintenance", share(0.5)),
            ("num_tiles", num(4)),
            ("location", json(r#"{"x": 5, "z": -6, "dimension": 1}"#)),
            ("treasury", big(7)),
            ("supplies_purchase_threshold", big(8)),
            ("supplies_purchase_price", share(1.5)),
        ],
    );
    let r = rows::decode_claim_local_with_fields(&c, cols::resolve_claim_local_cols(&s).unwrap()).unwrap();
    assert_eq!((r.entity_id, r.supplies, r.building_maintenance, r.num_tiles), (1, 2, bits(0.5), 4));
    assert_eq!((r.treasury, r.supplies_purchase_threshold, r.supplies_purchase_price), (7, 8, bits(1.5)));
    assert_eq!((r.has_location, r.location_x, r.location_z, r.location_dimension), (true, 5, -6, 1));

    let (s, c) = table(
        cols::CLAIM_MEMBER_TABLE,
        vec![
            ("entity_id", id(1)),
            ("claim_entity_id", id(2)),
            ("player_entity_id", id(3)),
            ("user_name", text("ada")),
            ("inventory_permission", yes(true)),
            ("build_permission", yes(false)),
            ("officer_permission", yes(true)),
            ("co_owner_permission", yes(false)),
        ],
    );
    let r = rows::decode_claim_member_with_fields(&c, cols::resolve_claim_member_cols(&s).unwrap()).unwrap();
    assert_eq!((r.entity_id, r.claim_entity_id, r.player_entity_id, r.user_name.as_str()), (1, 2, 3, "ada"));
    assert!(r.inventory_permission && !r.build_permission && r.officer_permission && !r.co_owner_permission);
}

#[test]
fn claim_techs_are_read() {
    let (s, c) = table(
        cols::CLAIM_TECH_STATE_TABLE,
        vec![
            ("entity_id", id(1)),
            ("learned", json("[2, 3]")),
            ("researching", num(4)),
            ("start_timestamp", big(5)),
        ],
    );
    let r = rows::decode_claim_tech_state_with_fields(&c, cols::resolve_claim_tech_state_cols(&s).unwrap()).unwrap();
    assert_eq!((r.entity_id, r.learned, r.researching, r.start_timestamp_micros), (1, vec![2, 3], 4, 5));

    let (s, c) = table(
        cols::CLAIM_TECH_DESC_TABLE,
        vec![
            ("id", num(1)),
            ("name", text("Walls")),
            ("description", text("higher")),
            ("tier", num(2)),
            ("tech_type", json(r#"{"TierUpgrade": {}}"#)),
            ("supplies_cost", num(3)),
            ("research_time", num(4)),
            ("requirements", json("[5]")),
            ("members", num(6)),
            ("area", num(7)),
            ("unlocks_techs", json("[8, 9]")),
        ],
    );
    let r = rows::decode_claim_tech_desc_with_fields(&c, cols::resolve_claim_tech_desc_cols(&s).unwrap()).unwrap();
    assert_eq!((r.id, r.name.as_str(), r.description.as_str(), r.tier), (1, "Walls", "higher", 2));
    assert_eq!((r.tech_type.as_str(), r.supplies_cost, r.research_time), ("tier_upgrade", 3, 4));
    assert_eq!((r.requirements, r.members, r.area, r.unlocks_techs), (vec![5], 6, 7, vec![8, 9]));

    let (s, c) =
        table(cols::CLAIM_TILE_COST_TABLE, vec![("tile_count", num(1)), ("cost_per_tile", share(0.25))]);
    let r = rows::decode_claim_tile_cost_with_fields(&c, cols::resolve_claim_tile_cost_cols(&s).unwrap()).unwrap();
    assert_eq!((r.tile_count, r.cost_per_tile), (1, bits(0.25)));
}

#[test]
fn buildings_are_read() {
    let (s, c) = table(
        cols::BUILDING_TABLE,
        vec![("entity_id", id(1)), ("claim_entity_id", id(2)), ("building_description_id", num(3))],
    );
    let r = rows::decode_building_with_fields(&c, cols::resolve_building_cols(&s).unwrap()).unwrap();
    assert_eq!((r.entity_id, r.claim_entity_id, r.building_description_id), (1, 2, 3));

    for (slots, storage) in [(0, false), (4, true)] {
        let functions = json(&format!("[{{\"storage_slots\": {slots}, \"cargo_slots\": 0}}]"));
        let (s, c) = table(
            cols::BUILDING_DESC_TABLE,
            vec![("id", num(1)), ("name", text("Chest")), ("functions", functions)],
        );
        let r = rows::decode_building_desc_with_fields(&c, cols::resolve_building_desc_cols(&s).unwrap()).unwrap();
        assert_eq!((r.id, r.name.as_str(), r.is_storage), (1, "Chest", storage));
    }

    let (s, c) = table(cols::BUILDING_NICKNAME_TABLE, vec![("entity_id", id(1)), ("nickname", text("Bank"))]);
    let r = rows::decode_building_nickname_with_fields(&c, cols::resolve_building_nickname_cols(&s).unwrap()).unwrap();
    assert_eq!((r.entity_id, r.nickname.as_str()), (1, "Bank"));
}

#[test]
fn storages_are_read() {
    let (s, c) = table(
        cols::INVENTORY_TABLE,
        vec![
            ("entity_id", id(1)),
            ("pockets", json("[]")),
            ("inventory_index", num(2)),
            ("cargo_index", num(3)),
            ("owner_entity_id", id(4)),
            ("player_owner_entity_id", id(5)),
        ],
    );
    let r = rows::decode_inventory_with_fields(&c, cols::resolve_inventory_cols(&s).unwrap()).unwrap();
    assert!(r.pockets.is_empty());
    assert_eq!((r.entity_id, r.inventory_index, r.cargo_index), (1, 2, 3));
    assert_eq!((r.owner_entity_id, r.player_owner_entity_id), (4, 5));

    let (s, c) = table(
        cols::STORAGE_LOG_TABLE,
        vec![
            ("id", id(1)),
            ("object_entity_id", id(2)),
            ("subject_entity_id", id(3)),
            ("subject_name", text("ada")),
            ("data", json(r#"{"DepositItem": {"item_id": 7, "quantity": 3, "item_type": {"Item": {}}}}"#)),
            ("timestamp", big(8)),
            ("days_since_epoch", num(9)),
        ],
    );
    let r = rows::decode_storage_log_with_fields(&c, cols::resolve_storage_log_cols(&s).unwrap()).unwrap();
    assert_eq!((r.id, r.storage_entity_id, r.player_entity_id, r.player_username.as_str()), (1, 2, 3, "ada"));
    assert_eq!((r.action, r.item_id, r.item_type, r.quantity), (ACTION_DEPOSIT, 7, ITEM, 3));
    assert_eq!((r.timestamp_micros, r.days_since_epoch), (8, 9));
}

#[test]
fn places_are_read() {
    let (s, c) = table(
        cols::LOCATION_TABLE,
        vec![("entity_id", id(1)), ("x", num(-2)), ("z", num(3)), ("dimension", big(4))],
    );
    let r = rows::decode_location_with_fields(&c, cols::resolve_location_cols(&s).unwrap()).unwrap();
    assert_eq!((r.entity_id, r.x, r.z, r.dimension), (1, -2, 3, 4));

    let (s, c) = table(
        cols::DIMENSION_NETWORK_TABLE,
        vec![
            ("entity_id", id(1)),
            ("building_id", id(2)),
            ("claim_entity_id", id(3)),
            ("rent_entity_id", id(4)),
            ("entrance_dimension_id", big(5)),
            ("is_collapsed", yes(true)),
        ],
    );
    let r = rows::decode_dimension_network_with_fields(&c, cols::resolve_dimension_network_cols(&s).unwrap()).unwrap();
    assert_eq!((r.entity_id, r.building_id, r.claim_entity_id, r.rent_entity_id), (1, 2, 3, 4));
    assert_eq!((r.entrance_dimension_id, r.is_collapsed), (5, true));

    let (s, c) = table(
        cols::RENT_TABLE,
        vec![
            ("entity_id", id(1)),
            ("dimension_network_id", id(2)),
            ("claim_entity_id", id(3)),
            ("white_list", json(r#"["0400000000000000"]"#)),
            ("active", yes(true)),
        ],
    );
    let r = rows::decode_rent_with_fields(&c, cols::resolve_rent_cols(&s).unwrap()).unwrap();
    assert_eq!((r.entity_id, r.dimension_network_id, r.claim_entity_id), (1, 2, 3));
    assert_eq!((r.white_list, r.active), (vec![4], true));
}

#[test]
fn deployables_and_housings_are_read() {
    let (s, c) = table(
        cols::DEPLOYABLE_TABLE,
        vec![
            ("entity_id", id(1)),
            ("owner_id", id(2)),
            ("claim_entity_id", id(3)),
            ("deployable_description_id", num(4)),
            ("nickname", text("Molly")),
        ],
    );
    let r = rows::decode_deployable_with_fields(&c, cols::resolve_deployable_cols(&s).unwrap()).unwrap();
    assert_eq!((r.entity_id, r.owner_id, r.claim_entity_id), (1, 2, 3));
    assert_eq!((r.deployable_description_id, r.nickname.as_str()), (4, "Molly"));

    let (s, c) = table(
        cols::DEPLOYABLE_DESC_TABLE,
        vec![("id", num(1)), ("name", text("Raft")), ("deployable_type", json(r#"{"Boat": {}}"#))],
    );
    let r = rows::decode_deployable_desc_with_fields(&c, cols::resolve_deployable_desc_cols(&s).unwrap()).unwrap();
    assert_eq!((r.id, r.name.as_str(), r.kind), (1, "Raft", DeployableKind::Boat));

    let (s, c) = table(
        cols::PLAYER_HOUSING_TABLE,
        vec![
            ("entity_id", id(1)),
            ("entrance_building_entity_id", id(2)),
            ("network_entity_id", id(3)),
            ("rank", num(4)),
            ("is_empty", yes(false)),
            ("region_index", Cell::Smallint(Some(5))),
        ],
    );
    let r = rows::decode_player_housing_with_fields(&c, cols::resolve_player_housing_cols(&s).unwrap()).unwrap();
    assert_eq!((r.entity_id, r.entrance_building_entity_id, r.network_entity_id), (1, 2, 3));
    assert_eq!((r.rank, r.is_empty, r.region_index), (4, false, 5));

    let (s, c) = table(
        cols::PLAYER_HOUSING_DESC_TABLE,
        vec![("secondary_knowledge_id", num(1)), ("rank", num(2)), ("name", text("Hut"))],
    );
    let at = cols::resolve_player_housing_desc_cols(&s).unwrap();
    let r = rows::decode_player_housing_desc_with_fields(&c, at).unwrap();
    assert_eq!((r.secondary_knowledge_id, r.rank, r.name.as_str()), (1, 2, "Hut"));
}

#[test]
fn skills_and_crafts_are_read() {
    let stacks = json(r#"[{"skill_id": 2, "quantity": 30}]"#);
    let (s, c) = table(cols::EXPERIENCE_TABLE, vec![("entity_id", id(1)), ("experience_stacks", stacks)]);
    let r = rows::decode_experience_with_fields(&c, cols::resolve_experience_cols(&s).unwrap()).unwrap();
    assert_eq!((r.entity_id, r.stacks), (1, vec![(2, 30)]));

    let (s, c) = table(
        cols::SKILL_DESC_TABLE,
        vec![("id", num(1)), ("name", text("Mining")), ("title", text("Miner")), ("max_level", num(4))],
    );
    let r = rows::decode_skill_desc_with_fields(&c, cols::resolve_skill_desc_cols(&s).unwrap()).unwrap();
    assert_eq!((r.id, r.name.as_str(), r.title.as_str(), r.max_level), (1, "Mining", "Miner", 4));

    let (s, c) = table(
        cols::PROGRESSIVE_ACTION_TABLE,
        vec![
            ("entity_id", id(1)),
            ("building_entity_id", id(2)),
            ("progress", num(3)),
            ("recipe_id", num(4)),
            ("craft_count", num(5)),
            ("owner_entity_id", id(6)),
        ],
    );
    let at = cols::resolve_progressive_action_cols(&s).unwrap();
    let r = rows::decode_progressive_action_with_fields(&c, at).unwrap();
    assert_eq!((r.entity_id, r.building_entity_id, r.progress), (1, 2, 3));
    assert_eq!((r.recipe_id, r.craft_count, r.owner_entity_id), (4, 5, 6));

    let (s, c) = table(
        cols::PUBLIC_PROGRESSIVE_ACTION_TABLE,
        vec![("entity_id", id(1)), ("building_entity_id", id(2)), ("owner_entity_id", id(3))],
    );
    let at = cols::resolve_public_progressive_action_cols(&s).unwrap();
    let r = rows::decode_public_progressive_action_with_fields(&c, at).unwrap();
    assert_eq!((r.entity_id, r.building_entity_id, r.owner_entity_id), (1, 2, 3));

    let (s, c) = table(
        cols::PASSIVE_CRAFT_TABLE,
        vec![
            ("entity_id", id(1)),
            ("owner_entity_id", id(2)),
            ("recipe_id", num(3)),
            ("building_entity_id", id(4)),
            ("status", json(r#"{"Queued": {}}"#)),
        ],
    );
    let r = rows::decode_passive_craft_with_fields(&c, cols::resolve_passive_craft_cols(&s).unwrap()).unwrap();
    assert_eq!((r.entity_id, r.owner_entity_id, r.recipe_id, r.building_entity_id), (1, 2, 3, 4));
    assert_eq!(r.status, PassiveCraftStatus::Queued);

    let made = json(r#"[{"item_id": 7, "quantity": 3, "item_type": {"Item": {}}}]"#);
    let (s, c) = table(
        cols::CRAFTING_RECIPE_DESC_TABLE,
        vec![("id", num(1)), ("actions_required", num(2)), ("crafted_item_stacks", made)],
    );
    let at = cols::resolve_crafting_recipe_desc_cols(&s).unwrap();
    let r = rows::decode_crafting_recipe_desc_with_fields(&c, at).unwrap();
    assert_eq!((r.id, r.actions_required), (1, 2));
    assert_eq!(r.crafted_item, vec![CraftedItemStack { item_id: 7, quantity: 3, item_type: ITEM }]);
}

#[test]
fn the_first_cell_that_cannot_be_read_is_told() {
    let (s, mut c) = table(
        cols::BUILDING_TABLE,
        vec![("entity_id", id(1)), ("claim_entity_id", id(2)), ("building_description_id", num(3))],
    );
    let at = cols::resolve_building_cols(&s).unwrap();
    c[at.building_description_id] = Cell::Integer(None);
    let e = rows::decode_building_with_fields(&c, at).unwrap_err();
    assert_eq!(e.context, "building.building_description_id");
    c[at.claim_entity_id] = num(2);
    let e = rows::decode_building_with_fields(&c, at).unwrap_err();
    assert_eq!((e.context, e.problem), ("building.claim_entity_id", Problem::WrongType));
}
