use bitcraft_mirror::discovery::naming::{public_port_for_database, source_name_for_database};
use bitcraft_mirror::health::sources::{HealthState, Poll};
use bitcraft_mirror::health::sys_metrics::{
    is_loopback_or_virtual, unsampled, Interface, MemSnapshot, NetSampler, WINDOW_BUCKETS, WINDOW_SECS,
};
use bitcraft_mirror::health::tx_rate::{SourceTxRate, TX_RATE_BUCKETS};
use bitcraft_mirror::json::{Json, JsonNumber};

fn value(v: &serde_json::Value) -> Json {
    match v {
        serde_json::Value::Null => Json::Null,
        serde_json::Value::Bool(b) => Json::Bool(*b),
        serde_json::Value::Number(n) => Json::Number(JsonNumber {
            int: n.as_i64(),
            uint: n.as_u64(),
            single: (n.as_f64().unwrap() as f32).to_bits(),
        }),
        serde_json::Value::String(s) => Json::Text(s.clone()),
        serde_json::Value::Array(list) => Json::Array(list.iter().map(value).collect()),
        serde_json::Value::Object(o) => Json::Object(o.iter().map(|(k, v)| (k.clone(), value(v))).collect()),
    }
}

fn poll(url: &str, body: Option<&str>) -> Poll {
    Poll {
        url: url.to_string(),
        body: body.map(|t| value(&serde_json::from_str(t).unwrap())),
        now_unix: 1_788_000_000,
    }
}

#[test]
fn tx_rate_ring_needs_two_samples() {
    let mut ring = SourceTxRate::new();
    ring.record(100);
    assert!(ring.growth().is_none());
    ring.record(110);
    // Ten transactions over one interval.
    assert_eq!(ring.growth(), Some((10, 1)));
}

#[test]
fn the_rate_forgets_what_is_older_than_a_minute() {
    let mut ring = SourceTxRate::new();
    for i in 0..=(TX_RATE_BUCKETS as u64) {
        ring.record(i * 1000);
    }
    for i in 0..(TX_RATE_BUCKETS as u64) {
        ring.record(60_000 + (i + 1) * 3);
    }
    assert_eq!(ring.growth(), Some((180, TX_RATE_BUCKETS)));
    // A counter that starts over does not count.
    ring.record(5);
    assert_eq!(ring.growth(), Some((177, TX_RATE_BUCKETS)));
}

#[test]
fn health_public_port_and_source_name_from_database() {
    assert_eq!(public_port_for_database("bitcraft-live-global"), 3000);
    assert_eq!(public_port_for_database("bitcraft-live-14"), 3014);
    assert_eq!(source_name_for_database("bitcraft-live-global"), "global");
    assert_eq!(source_name_for_database("bitcraft-live-14"), "bitcraft-live-14");
}

const LIVE_MIRROR: &str = r#"{
    "mirrors": [{
        "database": "bitcraft-live-global",
        "connectivity": "live",
        "tables_live": 12,
        "tables_total": 12,
        "transactions_processed": 100
    }]
}"#;

fn connectivity(state: &HealthState) -> Option<String> {
    state.sources().get("global").unwrap().connectivity.clone()
}

#[test]
fn mirror_poll_failure_marks_unreachable_after_grace() {
    let url = "http://127.0.0.1:3130/v1/mirrors";
    let mut state = HealthState::new();

    state.refresh_sources(&[poll(url, Some(LIVE_MIRROR))]);
    {
        let row = state.sources().get("global").expect("row present");
        assert_eq!(row.connectivity.as_deref(), Some("live"));
        assert!(row.last_success_unix.expect("success stamped") > 0);
        assert_eq!((row.tables_live, row.tables_total), (Some(12), Some(12)));
        assert_eq!(row.transactions_processed, Some(100));
    }

    state.refresh_sources(&[poll(url, None)]);
    assert_eq!(connectivity(&state).as_deref(), Some("live"));
    state.refresh_sources(&[poll(url, None)]);
    {
        let row = state.sources().get("global").unwrap();
        assert_eq!(row.connectivity.as_deref(), Some("unreachable"));
        assert_eq!(row.database, "bitcraft-live-global");
        assert_eq!(row.port, 3000);
    }
}

#[test]
fn degraded_url_does_not_shadow_fresh_rows() {
    let url_a = "http://127.0.0.1:3130/v1/mirrors";
    let url_b = "http://127.0.0.1:3131/v1/mirrors";
    let mut state = HealthState::new();

    state.refresh_sources(&[poll(url_a, Some(LIVE_MIRROR)), poll(url_b, None)]);
    assert_eq!(connectivity(&state).as_deref(), Some("live"));

    for _ in 0..3 {
        state.refresh_sources(&[poll(url_a, Some(LIVE_MIRROR)), poll(url_b, None)]);
        assert_eq!(connectivity(&state).as_deref(), Some("live"));
    }

    state.refresh_sources(&[poll(url_a, None), poll(url_b, None)]);
    assert_eq!(connectivity(&state).as_deref(), Some("live"));
    state.refresh_sources(&[poll(url_a, None), poll(url_b, None)]);
    assert_eq!(connectivity(&state).as_deref(), Some("unreachable"));
}

#[test]
fn transaction_rates_are_sampled_by_source() {
    let url = "http://127.0.0.1:3130/v1/mirrors";
    let mut state = HealthState::new();
    state.refresh_sources(&[poll(url, Some(LIVE_MIRROR))]);
    state.sample_tx_rates(&[poll(url, Some(LIVE_MIRROR))]);
    assert_eq!(state.growth("global"), None);
    let later = LIVE_MIRROR.replace("100", "125");
    state.sample_tx_rates(&[poll(url, Some(&later))]);
    assert_eq!(state.growth("global"), Some((25, 1)));
    assert_eq!(state.growth("bitcraft-live-3"), None);
}

#[test]
fn snapshot_defaults_are_zero_when_unsampled() {
    let memory = MemSnapshot::default();
    assert_eq!(memory.total_bytes, 0);
    let network = unsampled();
    assert_eq!(network.bytes_per_sec_in, 0);
    assert_eq!(network.samples, 0);
    assert_eq!(network.window_seconds, WINDOW_SECS);
}

#[test]
fn loopback_and_virtual_interfaces_are_excluded() {
    assert!(is_loopback_or_virtual("lo"));
    assert!(!is_loopback_or_virtual("eth0"));
}

fn interface(name: &str, received: u64, transmitted: u64) -> Interface {
    Interface { name: name.to_string(), received, transmitted }
}

#[test]
fn network_samples_are_differences() {
    let mut net = NetSampler::new();
    net.sample(&[interface("eth0", 100, 10), interface("lo", 5, 5)]);
    assert_eq!(net.recent(), &[(0, 0)]);
    net.sample(&[interface("eth0", 160, 15), interface("lo", 900, 900), interface("eth1", 7, 7)]);
    net.sample(&[interface("eth0", 100, 16), interface("eth1", 10, 7)]);
    assert_eq!(net.recent(), &[(0, 0), (60, 5), (3, 1)]);
    for _ in 0..WINDOW_BUCKETS {
        net.sample(&[interface("eth0", 100, 16)]);
    }
    assert_eq!(net.recent().len(), WINDOW_BUCKETS);
    assert!(net.recent().iter().all(|s| *s == (0, 0)));
}

#[test]
fn failures_are_counted_since_the_last_answer() {
    let url = "http://127.0.0.1:3130/v1/mirrors";
    let mut state = HealthState::new();
    state.refresh_sources(&[poll(url, Some(LIVE_MIRROR))]);
    let shown = |r: &bitcraft_mirror::name_table::NameTable<bitcraft_mirror::health::sources::SourceSnapshot>| {
        let row = r.get("global").unwrap();
        (r.len(), row.connectivity.clone().unwrap(), row.transactions_processed)
    };
    assert_eq!(shown(&state.degraded_mirror_rows(url)), (1, "live".to_string(), Some(100)));
    assert_eq!(shown(&state.degraded_mirror_rows(url)), (1, "unreachable".to_string(), Some(100)));
    assert_eq!(shown(&state.degraded_mirror_rows(url)), (1, "unreachable".to_string(), Some(100)));
    // Another mirror is counted apart, and an answer starts over.
    assert_eq!(shown(&state.degraded_mirror_rows("http://127.0.0.1:3131/v1/mirrors")).1, "live");
    state.refresh_sources(&[poll(url, Some(LIVE_MIRROR))]);
    assert_eq!(shown(&state.degraded_mirror_rows(url)).1, "live");
    assert_eq!(shown(&state.degraded_mirror_rows(url)).1, "unreachable");
}
