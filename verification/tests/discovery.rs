use bitcraft_mirror::discovery::legacy_units::{
    discover, is_mirror_unit, mirror_unit, parse_bind_port, parse_flag_value, parse_unit, NamingSpec, UnitFile,
};
use bitcraft_mirror::discovery::naming::{
    parse_region_number, port_for_database, public_port_for_database, source_name_for_database,
};
use bitcraft_mirror::discovery::regions::{
    discover_from_units, merge_mirrors, merge_regions, mirrors_urls, regions_of_mirror, DiscoverError, RegionBackend,
};
use bitcraft_mirror::json::{Json, JsonNumber};

fn value(v: &serde_json::Value) -> Json {
    match v {
        serde_json::Value::Null => Json::Null,
        serde_json::Value::Bool(b) => Json::Bool(*b),
        serde_json::Value::Number(n) => Json::Number(JsonNumber {
            int: n.as_i64(),
            uint: n.as_u64(),
            single: (n.as_f64().unwrap() as f32).to_bits(),
        }),
        serde_json::Value::String(s) => Json::Text(s.clone()),
        serde_json::Value::Array(list) => Json::Array(list.iter().map(value).collect()),
        serde_json::Value::Object(o) => Json::Object(o.iter().map(|(k, v)| (k.clone(), value(v))).collect()),
    }
}

fn json(text: &str) -> Json {
    value(&serde_json::from_str(text).unwrap())
}

#[test]
fn parse_region_from_source_name() {
    assert_eq!(parse_region_number("bitcraft-live-14"), Some(14));
    assert_eq!(parse_region_number("bitcraft-live-3"), Some(3));
    assert_eq!(parse_region_number("global"), None);
    assert_eq!(parse_region_number("bitcraft-live-"), None);
    assert_eq!(parse_region_number("relay-bc14"), None);
}

#[test]
fn naming_public_port_and_source_name_from_database() {
    assert_eq!(public_port_for_database("bitcraft-live-global"), 3000);
    assert_eq!(public_port_for_database("bitcraft-live-14"), 3014);
    assert_eq!(source_name_for_database("bitcraft-live-global"), "global");
    assert_eq!(source_name_for_database("bitcraft-live-14"), "bitcraft-live-14");
}

#[test]
fn ports_end_at_the_last_one() {
    assert_eq!(port_for_database("bitcraft-live-62535"), Some(65535));
    assert_eq!(port_for_database("bitcraft-live-62536"), None);
    assert_eq!(port_for_database("bitcraft-live-x"), Some(3000));
}

#[test]
fn parse_unit_file_extracts_ports_and_database() {
    let body = "[Service]\nExecStart=/relay --mirror-database relay-mirror-bc14 \
         --frontend-bind 127.0.0.1:3014 --dashboard-bind 127.0.0.1:3114\n";
    let naming = NamingSpec {
        template: Some("bitcraft-live-{stem}".into()),
        stem_prefix: Some("relay-bc".into()),
    };
    let src = parse_unit(body, "relay-bc14", &naming).expect("parsed");
    assert_eq!(src.name, "bitcraft-live-14");
    assert_eq!(src.database, "relay-mirror-bc14");
    assert_eq!(src.frontend_port, 3014);
    assert_eq!(src.dashboard_port, 3114);
}

const UNIT: &str = "[Service]\n\
     ExecStart=/relay \\\n\
     --mirror-database relay-mirror-bc14 \\\n\
     --frontend-bind 127.0.0.1:3014 \\\n\
     --dashboard-bind 127.0.0.1:3114\n";

#[test]
fn discover_forwards_dashboard_port_for_relay_fleet() {
    let files = [
        UnitFile { file_name: "relay-bc14.service".to_string(), body: Some(UNIT.to_string()) },
        UnitFile { file_name: "nginx.service".to_string(), body: Some(UNIT.to_string()) },
        UnitFile { file_name: "relay-bc15.service".to_string(), body: None },
    ];
    let naming = NamingSpec {
        template: Some("bitcraft-live-{stem}".into()),
        stem_prefix: Some("relay-bc".into()),
    };
    let units = discover_from_units(&discover(&files, &naming)).unwrap();
    let regions = merge_regions(vec![], units);
    assert_eq!(regions.len(), 1);
    assert_eq!(regions[0].region, 14);
    assert_eq!(regions[0].bind_url.as_str(), "ws://127.0.0.1:3014/");
    assert_eq!(regions[0].dashboard_port, Some(3114));
    assert_eq!(regions[0].database, "relay-mirror-bc14");
    assert_eq!(regions[0].backend, RegionBackend::RelayFleet);
}

#[test]
fn unit_flags_are_found_by_name() {
    assert_eq!(parse_bind_port(UNIT, "--frontend-bind"), Some(3014));
    assert_eq!(parse_bind_port(UNIT, "--other-bind"), None);
    assert_eq!(parse_flag_value(UNIT, "--mirror-database").as_deref(), Some("relay-mirror-bc14"));
    assert!(is_mirror_unit("relay-bc14"));
    assert!(!is_mirror_unit("nginx"));
    assert_eq!(mirror_unit("relay-bc14.service").as_deref(), Some("relay-bc14"));
    assert_eq!(mirror_unit("relay-bc14.timer"), None);
}

#[test]
fn mirrors_list_their_regions() {
    let body = json(
        r#"{"mirrors": [
            {"database": "bitcraft-live-7"},
            {"database": "bitcraft-live-global"},
            {"other": 1}
        ]}"#,
    );
    let regions = regions_of_mirror(&body, "http://10.0.0.5:3130/v1/mirrors", Some("10.0.0.5")).unwrap();
    assert_eq!(regions.len(), 1);
    assert_eq!(regions[0].region, 7);
    assert_eq!(regions[0].bind_url, "ws://10.0.0.5/");
    assert_eq!(regions[0].backend, RegionBackend::PublicMirror);
    assert_eq!(regions[0].mirrors_url.as_deref(), Some("http://10.0.0.5:3130/v1/mirrors"));
    assert!(matches!(regions_of_mirror(&json("{}"), "u", Some("h")), Err(DiscoverError::NoMirrors)));
    assert_eq!(merge_mirrors(regions).len(), 1);
    let local = regions_of_mirror(&body, "http://127.0.0.1:3130/v1/mirrors", None).unwrap();
    assert_eq!(local[0].bind_url, "ws://127.0.0.1:3007/");
    assert!(matches!(regions_of_mirror(&body, "u", Some("a b")), Err(DiscoverError::BadUrl(t)) if t == "ws://a b"));
}

#[test]
fn mirrors_take_precedence_over_units() {
    let naming = NamingSpec {
        template: Some("bitcraft-live-{stem}".into()),
        stem_prefix: Some("relay-bc".into()),
    };
    let files = [UnitFile { file_name: "relay-bc14.service".to_string(), body: Some(UNIT.to_string()) }];
    let units = discover_from_units(&discover(&files, &naming)).unwrap();
    let body = json(r#"{"mirrors": [{"database": "bitcraft-live-14"}, {"database": "bitcraft-live-3"}]}"#);
    let mirrors = merge_mirrors(regions_of_mirror(&body, "http://h/v1/mirrors", Some("h")).unwrap());
    let all = merge_regions(mirrors, units);
    assert_eq!(all.iter().map(|r| r.region).collect::<Vec<u32>>(), vec![3, 14]);
    assert!(all.iter().all(|r| r.backend == RegionBackend::PublicMirror));
}

#[test]
fn lists_of_urls_are_split_at_commas() {
    assert_eq!(mirrors_urls(" http://a , ,http://b").unwrap(), vec!["http://a", "http://b"]);
    assert!(matches!(mirrors_urls(" , "), Err(DiscoverError::NoMirrorsUrl)));
}

#[test]
fn the_fleet_names_its_units() {
    let naming = NamingSpec::fleet();
    assert_eq!(naming.template.as_deref(), Some("bitcraft-live-{stem}"));
    assert_eq!(naming.stem_prefix.as_deref(), Some("relay-bc"));
}
