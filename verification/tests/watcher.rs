use xnet_status::watcher::{bearer, decide, dispatch_ok, dispatch_url, parse_triggers, phase_to_store, status_fetch_ok, Decision};

fn trigs(items: &[&str]) -> Vec<String> {
    items.iter().map(|s| s.to_string()).collect()
}

#[test]
fn noop_on_same_phase() {
    let t = trigs(&["awaiting_cutover", "d14n_active"]);
    assert_eq!(decide(Some("awaiting_cutover"), "awaiting_cutover", &t), Decision::NoOp);
}

#[test]
fn dispatch_on_first_seen_trigger_phase() {
    let t = trigs(&["awaiting_cutover"]);
    assert_eq!(
        decide(None, "awaiting_cutover", &t),
        Decision::Dispatch { from: "none".to_string(), to: "awaiting_cutover".to_string() }
    );
}

#[test]
fn update_only_on_first_seen_non_trigger() {
    let t = trigs(&["awaiting_cutover"]);
    assert_eq!(decide(None, "unknown", &t), Decision::UpdateOnly { to: "unknown".to_string() });
}

#[test]
fn update_only_on_transition_to_non_trigger() {
    let t = trigs(&["awaiting_cutover", "d14n_active"]);
    assert_eq!(
        decide(Some("awaiting_cutover"), "migrating", &t),
        Decision::UpdateOnly { to: "migrating".to_string() }
    );
}

#[test]
fn dispatch_on_transition_to_trigger() {
    let t = trigs(&["awaiting_cutover", "d14n_active"]);
    assert_eq!(
        decide(Some("migrating"), "d14n_active", &t),
        Decision::Dispatch { from: "migrating".to_string(), to: "d14n_active".to_string() }
    );
}

#[test]
fn parse_triggers_trims_and_drops_empty() {
    let v = parse_triggers("  a , b ,, c,");
    assert_eq!(v, vec!["a".to_string(), "b".to_string(), "c".to_string()]);
    assert!(parse_triggers("").is_empty());
}

#[test]
fn empty_trigger_list_never_dispatches() {
    let t: Vec<String> = vec![];
    assert_eq!(
        decide(None, "awaiting_cutover", &t),
        Decision::UpdateOnly { to: "awaiting_cutover".to_string() }
    );
}

#[test]
fn stored_phase_seen_again_is_noop() {
    let t = trigs(&["d14n_active"]);
    let first = decide(Some("migrating"), "d14n_active", &t);
    let stored = match first {
        Decision::Dispatch { to, .. } => to,
        other => panic!("expected a dispatch, got {:?}", other),
    };
    assert_eq!(decide(Some(&stored), "d14n_active", &t), Decision::NoOp);
}

#[test]
fn parse_triggers_unicode_whitespace_and_single() {
    assert_eq!(parse_triggers("\u{3000}x\t"), vec!["x".to_string()]);
    assert_eq!(parse_triggers(" , ,"), Vec::<String>::new());
    assert_eq!(parse_triggers("awaiting_cutover,d14n_active"), trigs(&["awaiting_cutover", "d14n_active"]));
}

#[test]
fn dispatch_request_parts() {
    assert_eq!(
        dispatch_url("xmtp", "xmtp-metrics", "xnet-tests.yml"),
        "https://api.github.com/repos/xmtp/xmtp-metrics/actions/workflows/xnet-tests.yml/dispatches"
    );
    assert_eq!(bearer("abc"), "Bearer abc");
    assert!(status_fetch_ok(200) && status_fetch_ok(299));
    assert!(!status_fetch_ok(199) && !status_fetch_ok(300) && !status_fetch_ok(404));
    assert!(dispatch_ok(204) && !dispatch_ok(200));
}

#[test]
fn store_only_after_accepted_dispatch() {
    let triggers = trigs(&["d14n_active"]);
    let d = decide(Some("migrating"), "d14n_active", &triggers);
    assert_eq!(phase_to_store(&d, false), None);
    assert_eq!(phase_to_store(&d, true), Some("d14n_active".to_string()));
    // not stored: the next poll dispatches again
    assert!(matches!(decide(Some("migrating"), "d14n_active", &triggers), Decision::Dispatch { .. }));
    // stored: the next poll does nothing
    assert_eq!(decide(Some("d14n_active"), "d14n_active", &triggers), Decision::NoOp);
    let u = decide(Some("awaiting_cutover"), "migrating", &triggers);
    assert_eq!(phase_to_store(&u, false), Some("migrating".to_string()));
    assert_eq!(phase_to_store(&Decision::NoOp, true), None);
}
