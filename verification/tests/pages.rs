use xnet_status::health::{ContainerHealth, HealthMap};
use xnet_status::htmx::{build_service_rows, format_port, migration_row, phase_countdown, timeline_position, Timeline};
use xnet_status::migration::MessageType;
use xnet_status::pages::{build_dashboard_entries, build_endpoint_entries, build_service_entries, build_timezones, build_versions};
use xnet_status::percent::Percent;
use xnet_status::phase::{Phase, TEARDOWN_OFFSET_NS};
use xnet_status::config::{default_docker_socket, default_listen, default_prometheus_url};

const S: u64 = 1_000_000_000;

fn health() -> HealthMap {
    let mut h = HealthMap::new();
    h.insert(
        "xnet-100".to_string(),
        ContainerHealth {
            display_name: "100".to_string(),
            port: Some(5050),
            state: "running".to_string(),
            status: "Up".to_string(),
            up: true,
            image_tag: "v1.3.0".to_string(),
        },
    );
    h.insert(
        "xnet-gateway".to_string(),
        ContainerHealth {
            display_name: "gateway".to_string(),
            port: None,
            state: "exited".to_string(),
            status: "Exited".to_string(),
            up: false,
            image_tag: "main".to_string(),
        },
    );
    h
}

#[test]
fn page_entries() {
    let h = health();
    let s = build_service_entries(&h);
    assert_eq!((s[0].name.as_str(), s[0].port.as_str()), ("100", ":5050"));
    assert_eq!((s[1].name.as_str(), s[1].port.as_str()), ("gateway", ""));
    let v = build_versions(&h);
    assert_eq!((v[0].name.as_str(), v[0].tag.as_str()), ("xmtpd", "v1.3.0"));
    assert_eq!((v[1].name.as_str(), v[1].tag.as_str()), ("node-go", "unknown"));
    let e = build_endpoint_entries("xmtp.run", true);
    assert_eq!((e[1].label.as_str(), e[1].url.as_str()), ("xmtpd (d14n)", "https://xnet-100.xmtp.run"));
    let d = build_dashboard_entries("xmtp.run", false);
    assert_eq!((d[3].name.as_str(), d[3].url.as_str()), ("pgAdmin", "http://pgadmin.xmtp.run"));
    let tz = build_timezones(None);
    assert_eq!((tz[0].label.as_str(), tz[0].time.as_str()), ("N/A", "no cutover scheduled"));
    let tz = build_timezones(Some(1776443504_000_000_000));
    assert_eq!(tz.len(), 6);
    assert_eq!((tz[1].label.as_str(), tz[1].time.as_str()), ("EST", "12:31 EDT"));
}

#[test]
fn fragments() {
    let rows = build_service_rows(&health());
    assert_eq!(rows[0].state_text, "RUNNING");
    assert_eq!(rows[1].state_text, "EXITED");
    assert_eq!(rows[0].port, ":5050");
    assert_eq!(format_port(Some(0)), ":0");
    let r = migration_row(MessageType::CommitMessages, Percent { bits: 55.0f64.to_bits() }, "55.0".to_string());
    assert_eq!(r.name, "commit_messages");
    assert_eq!(r.color, "#ff0");
    assert_eq!(r.bar.matches('\u{2588}').count(), 11);
    assert_eq!(phase_countdown(&Phase::AwaitingCutover { countdown_ns: 61 * S }).as_deref(), Some("00:01:01"));
    assert_eq!(phase_countdown(&Phase::Unknown).as_deref(), Some("--:--:--"));
    assert_eq!(phase_countdown(&Phase::Migrating { min_percent: Percent { bits: 0 } }), None);
}

#[test]
fn timeline_positions() {
    let c = 10 * TEARDOWN_OFFSET_NS;
    assert_eq!(timeline_position(None, 5), Timeline::Start);
    assert_eq!(timeline_position(Some(c), c - TEARDOWN_OFFSET_NS), Timeline::Start);
    assert_eq!(timeline_position(Some(c), c + TEARDOWN_OFFSET_NS), Timeline::End);
    assert_eq!(timeline_position(Some(c), c), Timeline::Within { elapsed: TEARDOWN_OFFSET_NS, duration: 2 * TEARDOWN_OFFSET_NS });
    // a cutover within four hours of the epoch starts the cycle at the epoch
    assert_eq!(timeline_position(Some(S), 1), Timeline::Within { elapsed: 1, duration: S + TEARDOWN_OFFSET_NS });
}

#[test]
fn config_defaults() {
    assert_eq!(default_listen(), "0.0.0.0:8899");
    assert_eq!(default_prometheus_url(), "http://localhost:9090");
    assert_eq!(default_docker_socket(), "/var/run/docker.sock");
}
