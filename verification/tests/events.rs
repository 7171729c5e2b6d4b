use xnet_status::events::{build_connected_event, compute_transitions, MigrationSnapshot, PhaseEvent, TableProgress, TransitionTracker, V3_CONTAINER};
use xnet_status::health::{ContainerHealth, HealthMap};
use xnet_status::migration::{MessageType, MessageTypeProgress, MigrationState};
use xnet_status::percent::Percent;
use xnet_status::phase::{Phase, PhaseKind, TEARDOWN_OFFSET_NS};

const S: u64 = 1_000_000_000;

fn pct(x: f64) -> Percent {
    Percent { bits: x.to_bits() }
}

fn health_with_v3_up() -> HealthMap {
    let mut h = HealthMap::new();
    h.insert(
        V3_CONTAINER.to_string(),
        ContainerHealth {
            display_name: "xnet-node".to_string(),
            port: None,
            image_tag: "main".to_string(),
            up: true,
            state: "running".to_string(),
            status: "healthy".to_string(),
        },
    );
    h
}

fn migration_complete() -> MigrationState {
    let mut m = MigrationState::default();
    m.message_types.insert(
        MessageType::GroupMessages,
        MessageTypeProgress { source_seq: 100, dest_seq: 100, percent: pct(100.0) },
    );
    m
}

#[test]
fn v3_running_fires_once() {
    let mut t = TransitionTracker::default();
    let empty = MigrationState::default();
    let health = health_with_v3_up();
    let phase = Phase::AwaitingCutover { countdown_ns: 1000 * S };

    let events = compute_transitions(&mut t, 0, Some(1000 * S), &phase, &empty, &health, "xmtp.run");
    assert!(events.iter().any(|e| matches!(e, PhaseEvent::V3Running { .. })));
    assert!(t.v3_running_emitted);

    let events2 = compute_transitions(&mut t, 0, Some(1000 * S), &phase, &empty, &health, "xmtp.run");
    assert!(!events2.iter().any(|e| matches!(e, PhaseEvent::V3Running { .. })));
}

#[test]
fn v3_running_is_pre_cutover_only() {
    let empty = MigrationState::default();
    let health = health_with_v3_up();
    let phase = Phase::Migrating { min_percent: pct(0.0) };
    // first seen up at cutover or later: no v3_running, flag stays clear
    for now in [1000 * S, 2000 * S] {
        let mut t = TransitionTracker::default();
        let events = compute_transitions(&mut t, now, Some(1000 * S), &phase, &empty, &health, "d");
        assert!(!events.iter().any(|e| matches!(e, PhaseEvent::V3Running { .. })));
        assert!(!t.v3_running_emitted);
    }
    // one nanosecond before cutover it fires
    let mut t = TransitionTracker::default();
    let events = compute_transitions(&mut t, 1000 * S - 1, Some(1000 * S), &Phase::AwaitingCutover { countdown_ns: 1 }, &empty, &health, "d");
    assert!(matches!(events[0], PhaseEvent::V3Running { timestamp_s: 999, cutover_ts_s: Some(1000), .. }));
    // with no cutover time known it fires too
    let mut t = TransitionTracker::default();
    let events = compute_transitions(&mut t, 5 * S, None, &Phase::Unknown, &empty, &health, "d");
    assert!(matches!(events[0], PhaseEvent::V3Running { cutover_ts_s: None, .. }));
    assert_eq!(events.len(), 1);
}

#[test]
fn once_only_events_over_many_calls() {
    let complete = migration_complete();
    let health = health_with_v3_up();
    let mut t = TransitionTracker::default();
    let calls: Vec<(u64, Phase)> = vec![
        (S, Phase::AwaitingCutover { countdown_ns: 9 * S }),
        (11 * S, Phase::Migrating { min_percent: pct(0.0) }),
        (12 * S, Phase::Unknown),
        (13 * S, Phase::Migrating { min_percent: pct(10.0) }),
        (14 * S, Phase::D14nActive { countdown_ns: S }),
        (15 * S, Phase::Migrating { min_percent: pct(10.0) }),
        (16 * S, Phase::D14nActive { countdown_ns: S }),
    ];
    let mut all = Vec::new();
    for (now, phase) in calls.iter() {
        all.extend(compute_transitions(&mut t, *now, Some(10 * S), phase, &complete, &health, "d"));
    }
    let count = |f: fn(&PhaseEvent) -> bool| all.iter().filter(|e| f(e)).count();
    assert_eq!(count(|e| matches!(e, PhaseEvent::V3Running { .. })), 1);
    assert_eq!(count(|e| matches!(e, PhaseEvent::CutoverStarted { .. })), 1);
    assert_eq!(count(|e| matches!(e, PhaseEvent::MigrationComplete { .. })), 1);
    assert_eq!(count(|e| matches!(e, PhaseEvent::Migrating { .. })), 3);
    assert_eq!(count(|e| matches!(e, PhaseEvent::D14nActive { .. })), 2);
}

#[test]
fn cutover_transition_fires_cutover_started_and_migrating() {
    let mut t = TransitionTracker::default();
    t.last_phase_kind = Some(PhaseKind::AwaitingCutover);
    let migration = MigrationState::default();
    let health = HealthMap::new();
    let phase = Phase::Migrating { min_percent: pct(0.0) };

    let events = compute_transitions(&mut t, 2000 * S, Some(1000 * S), &phase, &migration, &health, "xmtp.run");
    assert!(events.iter().any(|e| matches!(e, PhaseEvent::CutoverStarted { .. })));
    assert!(events.iter().any(|e| matches!(e, PhaseEvent::Migrating { .. })));
    assert!(t.cutover_started_emitted);
}

#[test]
fn d14n_transition_fires_migration_complete_with_duration() {
    let mut t = TransitionTracker::default();
    t.last_phase_kind = Some(PhaseKind::Migrating);
    t.cutover_started_emitted = true;
    let migration = migration_complete();
    let health = HealthMap::new();
    let cutover_ns = 1000 * S;
    let now_ns = cutover_ns + 120 * S;
    let phase = Phase::D14nActive { countdown_ns: TEARDOWN_OFFSET_NS - 120 * S };

    let events = compute_transitions(&mut t, now_ns, Some(cutover_ns), &phase, &migration, &health, "xmtp.run");
    let complete = events.iter().find_map(|e| match e {
        PhaseEvent::MigrationComplete { duration_s, .. } => Some(*duration_s),
        _ => None,
    });
    assert_eq!(complete, Some(120));
    assert!(events.iter().any(|e| matches!(e, PhaseEvent::D14nActive { .. })));
}

#[test]
fn same_phase_kind_emits_nothing_new() {
    let mut t = TransitionTracker::default();
    let migration = MigrationState::default();
    let health = HealthMap::new();
    let phase = Phase::TeardownImminent;
    let first = compute_transitions(&mut t, 5 * S, Some(S), &phase, &migration, &health, "d");
    assert_eq!(first.len(), 1);
    assert!(matches!(first[0], PhaseEvent::TeardownImminent { timestamp_s: 5, .. }));
    let again = compute_transitions(&mut t, 6 * S, Some(S), &phase, &migration, &health, "d");
    assert!(again.is_empty());
    assert_eq!(t.last_phase_kind, Some(PhaseKind::TeardownImminent));
}

#[test]
fn migrating_records_first_sighting_once() {
    let mut t = TransitionTracker::default();
    let mut migration = MigrationState::default();
    migration.message_types.insert(MessageType::InboxLog, MessageTypeProgress { source_seq: 10, dest_seq: 5, percent: pct(50.0) });
    let health = HealthMap::new();
    let migrating = Phase::Migrating { min_percent: pct(50.0) };
    let e1 = compute_transitions(&mut t, 7 * S, Some(S), &migrating, &migration, &health, "d");
    assert_eq!(e1.len(), 2);
    match &e1[1] {
        PhaseEvent::Migrating { tables, domain, .. } => {
            assert_eq!(domain, "d");
            assert_eq!(tables.len(), 1);
            assert_eq!(tables[0].table, "inbox_log");
        }
        other => panic!("unexpected {:?}", other),
    }
    assert_eq!(t.migration_start_ns, Some(7 * S));
    // leave and come back: no second cutover_started, first sighting kept
    let _ = compute_transitions(&mut t, 8 * S, Some(S), &Phase::Unknown, &migration, &health, "d");
    let e3 = compute_transitions(&mut t, 9 * S, Some(S), &migrating, &migration, &health, "d");
    assert_eq!(e3.len(), 1);
    assert!(matches!(e3[0], PhaseEvent::Migrating { .. }));
    assert_eq!(t.migration_start_ns, Some(7 * S));
}

#[test]
fn awaiting_cutover_event_fields() {
    let mut t = TransitionTracker::default();
    let migration = MigrationState::default();
    let health = HealthMap::new();
    let phase = Phase::AwaitingCutover { countdown_ns: 90 * S + 5 };
    let e = compute_transitions(&mut t, 10 * S, Some(100 * S + 5), &phase, &migration, &health, "x");
    match &e[0] {
        PhaseEvent::AwaitingCutover { timestamp_s, cutover_ts_s, seconds_until_cutover, .. } => {
            assert_eq!((*timestamp_s, *cutover_ts_s, *seconds_until_cutover), (10, 100, 90));
        }
        other => panic!("unexpected {:?}", other),
    }
    // without a cutover time nothing is announced for that phase
    let mut t2 = TransitionTracker::default();
    assert!(compute_transitions(&mut t2, 0, None, &phase, &migration, &health, "x").is_empty());
}

#[test]
fn connected_event_fields() {
    let migration = migration_complete();
    let phase = Phase::AwaitingCutover { countdown_ns: 100 * S };
    let ev = build_connected_event(3 * S, Some(1000 * S), &phase, &migration, "xmtp.run");
    match ev {
        PhaseEvent::Connected { phase, timestamp_s, cutover_ts_s, domain, migration } => {
            assert_eq!(phase, "awaiting_cutover");
            assert_eq!(timestamp_s, 3);
            assert_eq!(cutover_ts_s, Some(1000));
            assert_eq!(domain, "xmtp.run");
            assert_eq!(f64::from_bits(migration.overall_percent.bits), 100.0);
            assert_eq!(migration.tables.len(), 1);
        }
        other => panic!("unexpected {:?}", other),
    }
    let snap = MigrationSnapshot::from_migration(&MigrationState::default());
    assert!(snap.tables.is_empty());
    let tables = TableProgress::from_migration(&migration);
    assert_eq!(tables[0].table, "group_messages");
}
