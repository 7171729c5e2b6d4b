use xnet_status::api::{build_cutover_info, build_cutover_response, build_dashboards, build_endpoints, build_nodes, build_services, build_status_response, build_versions};
use xnet_status::config::{MigratorNode, ServerInfo, StatusSection};
use xnet_status::health::{ContainerHealth, HealthMap};
use xnet_status::migration::MigrationState;
use xnet_status::phase::Phase;

const NS_PER_S: u64 = 1_000_000_000;

#[test]
fn endpoints_and_dashboards() {
    let ep = build_endpoints("xmtp.run", true);
    assert_eq!(ep.get("xmtpd").unwrap(), "https://xnet-100.xmtp.run");
    assert_eq!(ep.get("node_go").unwrap(), "https://node-go.xmtp.run");
    assert_eq!(ep.get("gateway").unwrap(), "https://gateway.xmtp.run");
    let db = build_dashboards("xmtp.run", true);
    assert_eq!(db.get("grafana").unwrap(), "https://grafana.xmtp.run");
    assert_eq!(db.get("otterscan").unwrap(), "https://otterscan.xmtp.run");
}

#[test]
fn cutover_info() {
    let cutover_ns = 1_776_443_504_000_000_000u64;
    let now_ns = cutover_ns + 3600 * NS_PER_S;
    let info = build_cutover_info(Some(cutover_ns), now_ns);
    assert_eq!(info.timestamp_ns, Some(cutover_ns));
    assert_eq!(info.timestamp_s, Some(cutover_ns / NS_PER_S));
    assert_eq!(info.elapsed_since_cutover_s, Some(3600));
    assert!(info.time_until_teardown_s.unwrap() > 0);
    let none = build_cutover_info(None, 1000);
    assert!(none.timestamp_s.is_none());
}

#[test]
fn cutover_info_texts_and_bounds() {
    let cutover_ns = 1_776_443_504_000_000_000u64;
    let info = build_cutover_info(Some(cutover_ns), cutover_ns - NS_PER_S);
    assert_eq!(info.scheduled_utc.as_deref(), Some("2026-04-17T16:31:44Z"));
    assert_eq!(info.elapsed_since_cutover_s, None);
    assert_eq!(info.time_until_teardown_s, Some(4 * 3600 + 1));
    let late = build_cutover_info(Some(cutover_ns), cutover_ns + 5 * 3600 * NS_PER_S);
    assert_eq!(late.time_until_teardown_s, Some(0));
}

fn container(port: Option<u16>, up: bool, tag: &str) -> ContainerHealth {
    ContainerHealth {
        display_name: "x".to_string(),
        port,
        state: "running".to_string(),
        status: "Up 2 hours".to_string(),
        up,
        image_tag: tag.to_string(),
    }
}

fn section() -> StatusSection {
    StatusSection {
        listen: "127.0.0.1:0".to_string(),
        prometheus_url: "http://unused".to_string(),
        docker_socket: "/unused".to_string(),
        cutover_env_path: None,
        migrator_nodes: vec![MigratorNode { port: 5050 }],
        server: ServerInfo {
            ip: "1.2.3.4".to_string(),
            domain: "xmtp.run".to_string(),
            region: "test".to_string(),
            server_type: "test".to_string(),
            use_tls: false,
        },
    }
}

#[test]
fn nodes_versions_and_services() {
    let mut h = HealthMap::new();
    h.insert("xnet-100".to_string(), container(Some(5050), true, "v1.3.0"));
    h.insert("xnet-101".to_string(), container(Some(5051), false, "v1.3.0"));
    h.insert("xnet-node".to_string(), container(Some(5556), true, "main"));
    h.insert("xnet-".to_string(), container(None, true, "x"));
    let nodes = build_nodes(&section(), &h);
    assert_eq!(nodes.len(), 3);
    let n100 = nodes.get("100").unwrap();
    assert_eq!(n100.url, "http://xnet-100.xmtp.run");
    assert!(n100.migrator && n100.healthy);
    let n101 = nodes.get("101").unwrap();
    assert!(!n101.migrator && !n101.healthy);
    assert!(nodes.get("node").is_none());
    assert!(nodes.get("").is_some());

    let v = build_versions(&h);
    assert_eq!(v.xmtpd, "v1.3.0");
    assert_eq!(v.node_go, "main");
    assert_eq!(v.contracts, "unknown");

    let s = build_services(&h);
    assert_eq!(s.len(), 4);
    assert_eq!(s.get("xnet-node").unwrap().status, "Up 2 hours");
}

#[test]
fn status_and_cutover_responses() {
    let h = HealthMap::new();
    let m = MigrationState::default();
    let r = build_status_response(10 * NS_PER_S, Some(20 * NS_PER_S), &m, &h, &section());
    assert_eq!(r.phase, "awaiting_cutover");
    assert_eq!(r.endpoints.get("gateway").unwrap(), "http://gateway.xmtp.run");
    assert!(!r.contracts_paused);
    assert_eq!(r.server.uptime_s, 0);

    let c = build_cutover_response(Some(1_776_443_504_000_000_000), &Phase::Unknown);
    assert_eq!(c.phase, "unknown");
    assert_eq!(c.timezones.len(), 6);
    assert_eq!(c.timezones.get("JST").unwrap(), "01:31+1 JST");
    assert_eq!(c.timezones.entry(0).0, "CET");
    let none = build_cutover_response(None, &Phase::Unknown);
    assert_eq!(none.timezones.len(), 0);
    assert!(none.scheduled_utc.is_none());
}
