use xnet_status::migration::{MessageType, MessageTypeProgress, MigrationState};
use xnet_status::percent::Percent;
use xnet_status::phase::{compute_phase, compute_phase_at, format_countdown, Phase, PhaseKind, NS_PER_S, TEARDOWN_OFFSET_NS};

const S: u64 = NS_PER_S;

fn pct(x: f64) -> Percent {
    Percent { bits: x.to_bits() }
}

#[test]
fn phase_transitions() {
    let empty = MigrationState::default();
    let incomplete = {
        let mut m = MigrationState::default();
        m.message_types.insert(
            MessageType::GroupMessages,
            MessageTypeProgress { source_seq: 100, dest_seq: 42, percent: pct(42.5) },
        );
        m
    };
    let complete = {
        let mut m = MigrationState::default();
        m.message_types.insert(
            MessageType::GroupMessages,
            MessageTypeProgress { source_seq: 100, dest_seq: 100, percent: pct(100.0) },
        );
        m
    };

    assert_eq!(compute_phase_at(1000 * S, None, &empty), Phase::Unknown);
    assert_eq!(compute_phase_at(1000 * S, Some(2000 * S), &empty), Phase::AwaitingCutover { countdown_ns: 1000 * S });
    assert_eq!(compute_phase_at(1500 * S, Some(1000 * S), &incomplete), Phase::Migrating { min_percent: pct(42.5) });
    assert_eq!(
        compute_phase_at(2000 * S, Some(1000 * S), &complete),
        Phase::D14nActive { countdown_ns: 1000 * S + TEARDOWN_OFFSET_NS - 2000 * S }
    );
    assert_eq!(compute_phase_at(1000 * S + TEARDOWN_OFFSET_NS + 1, Some(1000 * S), &complete), Phase::TeardownImminent);
}

#[test]
fn countdown_formatting() {
    for (ns, expected) in [(0, "00:00:00"), (61 * S, "00:01:01"), (3661 * S, "01:01:01"), (86399 * S, "23:59:59")] {
        assert_eq!(format_countdown(ns), expected);
    }
}

#[test]
fn countdown_beyond_a_day() {
    assert_eq!(format_countdown(100 * 3600 * S + 5 * S + 999_999_999), "100:00:05");
}

#[test]
fn labels() {
    for (phase, label) in [
        (Phase::Unknown, "UNKNOWN"),
        (Phase::AwaitingCutover { countdown_ns: 0 }, "AWAITING CUTOVER"),
        (Phase::Migrating { min_percent: pct(0.0) }, "MIGRATING"),
        (Phase::D14nActive { countdown_ns: 0 }, "D14N ACTIVE"),
        (Phase::TeardownImminent, "TEARDOWN IMMINENT"),
    ] {
        assert_eq!(phase.label(), label);
    }
}

#[test]
fn names_descriptions_and_kinds() {
    assert_eq!(Phase::AwaitingCutover { countdown_ns: 1 }.api_name(), "awaiting_cutover");
    assert_eq!(Phase::TeardownImminent.api_name(), "teardown_imminent");
    assert_eq!(Phase::D14nActive { countdown_ns: 1 }.description(), "until teardown");
    assert_eq!(Phase::AwaitingCutover { countdown_ns: 1 }.description(), "until v3 \u{2192} d14n cutover");
    assert_eq!(Phase::Migrating { min_percent: pct(1.0) }.kind(), PhaseKind::Migrating);
}

#[test]
fn no_progress_five_minutes_after_cutover_counts_as_done() {
    let empty = MigrationState::default();
    // six minutes after cutover with no metrics: migration assumed done
    assert_eq!(
        compute_phase_at(1000 * S + 360 * S, Some(1000 * S), &empty),
        Phase::D14nActive { countdown_ns: TEARDOWN_OFFSET_NS - 360 * S }
    );
    // just over five minutes after (330 s): assumed done as well
    assert_eq!(
        compute_phase_at(1000 * S + 330 * S, Some(1000 * S), &empty),
        Phase::D14nActive { countdown_ns: TEARDOWN_OFFSET_NS - 330 * S }
    );
    // exactly five minutes after: not yet
    assert_eq!(compute_phase_at(1000 * S + 300 * S, Some(1000 * S), &empty), Phase::Migrating { min_percent: pct(0.0) });
    // three minutes after: still migrating at 0%
    assert_eq!(compute_phase_at(1000 * S + 180 * S, Some(1000 * S), &empty), Phase::Migrating { min_percent: pct(0.0) });
}

#[test]
fn phase_by_the_clock() {
    let empty = MigrationState::default();
    assert_eq!(compute_phase(None, &empty), Phase::Unknown);
    // a cutover at the epoch's first second is long past: four hours are over
    assert_eq!(compute_phase(Some(S), &empty), Phase::TeardownImminent);
}

fn stage(p: &Phase) -> u8 {
    match p {
        Phase::Unknown => 0,
        Phase::AwaitingCutover { .. } => 1,
        Phase::Migrating { .. } => 2,
        Phase::D14nActive { .. } => 3,
        Phase::TeardownImminent => 4,
    }
}

#[test]
fn phase_never_moves_backwards() {
    let empty = MigrationState::default();
    let cutover = 1000 * S;
    let mut last = 0;
    for step in 0..200u64 {
        let now = step * 120 * S;
        let p = compute_phase_at(now, Some(cutover), &empty);
        assert!(stage(&p) >= last, "at {now}");
        last = stage(&p);
    }
    assert_eq!(last, 4);
}
