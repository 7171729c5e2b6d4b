use xnet_status::migration::{MessageType, MessageTypeProgress, MigrationState, ProgressMap};
use xnet_status::percent::Percent;

const S: u64 = 1_000_000_000;

fn pct(x: f64) -> Percent {
    Percent { bits: x.to_bits() }
}

fn ms(progress: bool, all_complete: bool) -> MigrationState {
    if !progress {
        return MigrationState::default();
    }
    let p = if all_complete { 100.0 } else { 50.0 };
    let mut message_types = ProgressMap::new();
    message_types.insert(
        MessageType::GroupMessages,
        MessageTypeProgress { source_seq: 100, dest_seq: if all_complete { 100 } else { 50 }, percent: pct(p) },
    );
    MigrationState { message_types }
}

#[test]
fn done_cases() {
    // (progress, all_complete, cutover_ns, now_ns, expected)
    let cases: Vec<(bool, bool, u64, u64, bool)> = vec![
        (true, true, 1000 * S, 1500 * S, true),
        (true, false, 1000 * S, 1500 * S, false),
        (false, false, 1000 * S, 1360 * S, true),
        (false, false, 1000 * S, 1180 * S, false),
    ];
    for (progress, all_complete, cutover, now, expected) in cases {
        assert_eq!(
            ms(progress, all_complete).done(cutover, now),
            expected,
            "progress={progress} all_complete={all_complete} cutover={cutover} now={now}"
        );
    }
}

#[test]
fn min_percent_cases() {
    assert_eq!(f64::from_bits(MigrationState::default().min_percent().bits), 0.0);
    let mut m = MigrationState::default();
    m.message_types.insert(MessageType::GroupMessages, MessageTypeProgress { source_seq: 100, dest_seq: 80, percent: pct(80.0) });
    m.message_types.insert(MessageType::CommitMessages, MessageTypeProgress { source_seq: 100, dest_seq: 50, percent: pct(50.0) });
    assert_eq!(f64::from_bits(m.min_percent().bits), 50.0);
}

#[test]
fn progress_bar_fill_counts() {
    for (p, filled, empty) in [(0.0, 0, 20), (50.0, 10, 10), (100.0, 20, 0)] {
        let bar = MigrationState::progress_bar(pct(p));
        assert_eq!(bar.matches('\u{2588}').count(), filled);
        assert_eq!(bar.matches('\u{2591}').count(), empty);
    }
}

#[test]
fn progress_bar_clamps_and_truncates() {
    for (p, filled) in [(-3.0, 0), (f64::NAN, 0), (4.99, 0), (9.99, 1), (99.99, 19), (250.0, 20), (f64::INFINITY, 20), (1e-300, 0)] {
        let bar = MigrationState::progress_bar(pct(p));
        assert_eq!(bar.matches('\u{2588}').count(), filled, "percent {p}");
        assert_eq!(bar.matches('\u{2591}').count(), 20 - filled, "percent {p}");
        assert!(bar.starts_with('[') && bar.ends_with(']'));
    }
    assert_eq!(pct(42.9).clamped_whole(), 42);
    assert_eq!(pct(63.0).clamped_whole(), 63);
}

#[test]
fn bar_colors() {
    assert_eq!(MigrationState::bar_color(pct(100.0)), "#0f0");
    assert_eq!(MigrationState::bar_color(pct(75.0)), "#ff0");
    assert_eq!(MigrationState::bar_color(pct(50.0)), "#ff0");
    assert_eq!(MigrationState::bar_color(pct(49.9)), "#f66");
    assert_eq!(MigrationState::bar_color(pct(f64::NAN)), "#f66");
}

#[test]
fn min_percent_skips_nan_and_all_complete() {
    let mut m = MigrationState::default();
    m.message_types.insert(MessageType::InboxLog, MessageTypeProgress { source_seq: 0, dest_seq: 0, percent: pct(f64::NAN) });
    m.message_types.insert(MessageType::KeyPackages, MessageTypeProgress { source_seq: 0, dest_seq: 0, percent: pct(100.0) });
    assert_eq!(f64::from_bits(m.min_percent().bits), 100.0);
    assert!(m.all_complete());
    assert!(m.progress());
    m.message_types.insert(MessageType::KeyPackages, MessageTypeProgress { source_seq: 0, dest_seq: 0, percent: pct(99.0) });
    assert!(!m.all_complete());
    assert_eq!(m.message_types.len(), 2);
}

#[test]
fn labels_and_order() {
    assert_eq!(MessageType::KeyPackages.label(), "key_packages");
    let mut p = ProgressMap::new();
    for t in [MessageType::InboxLog, MessageType::CommitMessages, MessageType::KeyPackages, MessageType::GroupMessages] {
        p.insert(t, MessageTypeProgress { source_seq: 1, dest_seq: 1, percent: pct(1.0) });
    }
    let order: Vec<MessageType> = (0..p.len()).map(|i| p.entry(i).0).collect();
    assert_eq!(order, vec![MessageType::CommitMessages, MessageType::GroupMessages, MessageType::KeyPackages, MessageType::InboxLog]);
}

#[test]
fn no_metrics_timeout_is_five_minutes() {
    const S: u64 = 1_000_000_000;
    let empty = MigrationState::default();
    assert!(!empty.done(1000 * S, 1300 * S));
    assert!(empty.done(1000 * S, 1300 * S + 1));
    assert!(empty.done(1000 * S, 1330 * S));
    // before cutover: never done by the timeout
    assert!(!empty.done(1000 * S, 10 * S));
}
