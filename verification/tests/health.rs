use xnet_status::health::{display_name_for, health_from_containers, parse_image_tag, ContainerSummary};

#[test]
fn display_names() {
    assert_eq!(display_name_for("xnet-100"), "100");
    assert_eq!(display_name_for("xnet-gateway"), "gateway");
    assert_eq!(display_name_for("other"), "other");
}

#[test]
fn image_tag_parsing() {
    for (input, expected) in [
        ("ghcr.io/xmtp/xmtpd:v1.3.0", "v1.3.0"),
        ("myimage:latest", "latest"),
        ("myimage", "latest"),
        ("registry:5000/myimage:v2", "v2"),
        ("registry:5000/myimage", "latest"),
        ("img@sha256:abc123", "latest"),
        ("img:v1@sha256:abc123", "v1"),
    ] {
        assert_eq!(parse_image_tag(input), expected, "input: {input}");
    }
}

#[test]
fn image_tag_edge_cases() {
    assert_eq!(parse_image_tag(""), "latest");
    assert_eq!(parse_image_tag(":tag"), "latest");
    assert_eq!(parse_image_tag("a:"), "");
    assert_eq!(parse_image_tag("@x:y"), "latest");
}

fn summary(names: &[&str], up: bool, image: Option<&str>, ports: Vec<Option<u16>>) -> ContainerSummary {
    ContainerSummary {
        names: names.iter().map(|s| s.to_string()).collect(),
        up,
        state: if up { "running".to_string() } else { "exited".to_string() },
        status: Some("Up 2 hours".to_string()),
        image: image.map(|s| s.to_string()),
        public_ports: ports,
    }
}

#[test]
fn health_map_from_docker_list() {
    let cs = vec![
        summary(&["/xnet-node"], true, Some("ghcr.io/xmtp/node-go:main"), vec![None, Some(5556)]),
        summary(&["/other"], true, None, vec![]),
        summary(&["//xnet-100", "/xnet-alias"], false, None, vec![]),
    ];
    let m = health_from_containers(&cs);
    assert_eq!(m.len(), 3);
    let node = m.get("xnet-node").unwrap();
    assert_eq!(node.display_name, "node");
    assert_eq!(node.port, Some(5556));
    assert_eq!(node.image_tag, "main");
    assert!(node.up);
    let n100 = m.get("xnet-100").unwrap();
    assert_eq!(n100.image_tag, "unknown");
    assert_eq!(n100.state, "exited");
    assert!(m.get("other").is_none());
    // entries come out in name order
    let names: Vec<String> = (0..m.len()).map(|i| m.entry(i).0.clone()).collect();
    assert_eq!(names, vec!["xnet-100", "xnet-alias", "xnet-node"]);
}
