use bitcraft_mirror::bitme::global::{BitmeGlobalMeta, BitmeGlobalStore};
use bitcraft_mirror::bitme::region_store::{locate_player_region, shard_player_info, RegionStore};
use bitcraft_mirror::bitme::serve::{bitme_resolve, ResolveReply};
use bitcraft_mirror::cell::Cell;
use bitcraft_mirror::roads::apply::RowInput;
use bitcraft_mirror::schema::{MirroredField, MirroredSchema, MirroredTable, MirroredType, Problem};

fn table(name: &str, fields: &[(&str, MirroredType)]) -> MirroredTable {
    MirroredTable {
        name: name.to_string(),
        fields: Some(fields.iter().map(|(n, t)| MirroredField { name: Some(n.to_string()), ty: *t }).collect()),
    }
}

fn schema() -> MirroredSchema {
    MirroredSchema {
        tables: vec![
            table(
                "player_lowercase_username_state",
                &[("entity_id", MirroredType::U64), ("username_lowercase", MirroredType::Other)],
            ),
            table("user_state", &[("identity", MirroredType::Other), ("entity_id", MirroredType::U64)]),
            table("user_region_state", &[("identity", MirroredType::Other), ("region_id", MirroredType::U8)]),
            table(
                "region_connection_info",
                &[("id", MirroredType::U8), ("host", MirroredType::Other), ("module", MirroredType::Other)],
            ),
            table(
                "world_region_name_state",
                &[("id", MirroredType::U16), ("player_facing_name", MirroredType::Other)],
            ),
            table("signed_in_player_state", &[("entity_id", MirroredType::U64)]),
        ],
    }
}

fn row(cells: Vec<Cell>) -> RowInput {
    RowInput { bytes: vec![], cells: Some(cells) }
}

fn id(v: u64) -> Cell {
    Cell::Bytea(Some(v.to_le_bytes().to_vec()))
}

fn text(t: &str) -> Cell {
    Cell::Text(Some(t.to_string()))
}

fn identity(v: u8) -> Cell {
    Cell::Bytea(Some(vec![v; 32]))
}

fn store() -> (BitmeGlobalMeta, BitmeGlobalStore) {
    let meta = BitmeGlobalMeta::from_schema_global(&schema());
    let mut s = BitmeGlobalStore::new();
    s.apply_insert(&meta, "player_lowercase_username_state", &row(vec![id(42), text("ada")])).unwrap();
    s.apply_insert(&meta, "user_state", &row(vec![identity(7), id(42)])).unwrap();
    s.apply_insert(&meta, "user_region_state", &row(vec![identity(7), Cell::Smallint(Some(14))])).unwrap();
    s.apply_insert(&meta, "region_connection_info", &row(vec![Cell::Smallint(Some(14)), text("h"), text("m")])).unwrap();
    s.apply_insert(&meta, "world_region_name_state", &row(vec![Cell::Integer(Some(14)), text("Calenthyr")])).unwrap();
    s.apply_insert(&meta, "signed_in_player_state", &row(vec![id(42)])).unwrap();
    s.mark_ready();
    (meta, s)
}

#[test]
fn a_name_leads_to_the_player_and_the_region() {
    let (_, s) = store();
    assert!(s.ready());
    let p = s.resolve("ada").unwrap();
    assert_eq!(p.entity_id, 42);
    assert_eq!(p.username_lowercase, "ada");
    assert_eq!(p.identity_hex.as_deref(), Some("07".repeat(32).as_str()));
    assert_eq!(p.region_id, Some(14));
    assert_eq!(p.region_name.as_deref(), Some("Calenthyr"));
    assert_eq!((p.host.as_str(), p.module.as_str()), ("h", "m"));
    assert_eq!(p.signed_in, Some(true));
    assert!(s.resolve("bob").is_none());
    assert_eq!(
        s.region_info(14),
        (Some("Calenthyr".to_string()), Some("h".to_string()), Some("m".to_string()))
    );
    let counts = s.counts();
    assert_eq!((counts.lowercase_usernames, counts.users), (1, 1));
}

#[test]
fn rows_that_go_take_their_link_with_them() {
    let (meta, mut s) = store();
    s.apply_delete(&meta, "user_region_state", &row(vec![identity(7), Cell::Smallint(Some(14))])).unwrap();
    let p = s.resolve("ada").unwrap();
    assert_eq!(p.region_id, None);
    assert_eq!(p.host, "");
    s.apply_delete(&meta, "player_lowercase_username_state", &row(vec![id(42), text("ada")])).unwrap();
    assert!(s.resolve("ada").is_none());
    s.clear();
    assert!(!s.ready());
}

#[test]
fn rows_that_cannot_be_read_change_nothing() {
    let (meta, mut s) = store();
    let bad = row(vec![text("x"), text("y")]);
    let e = s.apply_insert(&meta, "player_lowercase_username_state", &bad).unwrap_err();
    assert_eq!(e.problem, Problem::WrongType);
    assert!(s.resolve("y").is_none());
    s.apply_global(&meta, "user_region_state", Some(&row(vec![identity(7), Cell::Smallint(Some(3))])), None);
    assert_eq!(s.resolve("ada").unwrap().region_id, Some(3));
}

#[test]
fn names_are_asked_for_in_any_case() {
    let (_, s) = store();
    let ResolveReply::Found(p) = bitme_resolve(&s, &[], Some("  ADA ")) else {
        panic!("the player was expected");
    };
    assert_eq!(p.entity_id, 42);
    assert_eq!(p.region_id, Some(14));
    assert_eq!(p.host.as_deref(), Some("h"));
    assert!(matches!(bitme_resolve(&s, &[], None), ResolveReply::NoName));
    assert!(matches!(bitme_resolve(&s, &[], Some(" ")), ResolveReply::NoName));
    assert!(matches!(
        bitme_resolve(&s, &[], Some("BOB")),
        ResolveReply::Unknown { name_lowercase } if name_lowercase == "bob"
    ));
}

#[test]
fn a_region_is_found_through_the_shards() {
    let (meta, mut s) = store();
    s.apply_delete(&meta, "user_region_state", &row(vec![identity(7), Cell::Smallint(Some(14))])).unwrap();
    let mut shard = RegionStore::empty(14);
    shard.ready = true;
    shard.player_username.insert(42, "Ada".to_string());
    shard.player_state.insert(42, true);
    let shards = [&shard];
    assert_eq!(locate_player_region(&shards, 42), Some(14));
    assert_eq!(locate_player_region(&shards, 43), None);
    assert_eq!(shard_player_info(&shards, 42).unwrap().username.unwrap(), "Ada");
    let ResolveReply::Found(p) = bitme_resolve(&s, &shards, Some("ada")) else {
        panic!("the player was expected");
    };
    assert_eq!(p.username, "Ada");
    assert_eq!(p.region_id, Some(14));
    assert_eq!(p.region_name.as_deref(), Some("Calenthyr"));
    assert_eq!(p.host.as_deref(), Some("h"));
}
