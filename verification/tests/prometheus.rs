use xnet_status::migration::MessageType;
use xnet_status::percent::Percent;
use xnet_status::prometheus::{apply_sequences, parse_message_type, progress_from_samples, PercentSample, SequenceSample};

#[test]
fn parse_message_types() {
    assert_eq!(parse_message_type("commit_messages"), Some(MessageType::CommitMessages));
    assert_eq!(parse_message_type("group_messages"), Some(MessageType::GroupMessages));
    assert_eq!(parse_message_type("key_packages"), Some(MessageType::KeyPackages));
    assert_eq!(parse_message_type("inbox_log"), Some(MessageType::InboxLog));
    assert_eq!(parse_message_type("unknown_table"), None);
}

fn ps(table: Option<&str>, p: f64) -> PercentSample {
    PercentSample { table: table.map(|s| s.to_string()), percent: Percent { bits: p.to_bits() } }
}

fn ss(table: Option<&str>, v: u64) -> SequenceSample {
    SequenceSample { table: table.map(|s| s.to_string()), value: v }
}

#[test]
fn samples_build_state() {
    let samples = vec![
        ps(Some("group_messages"), 100.0),
        ps(Some("commit_messages"), 78.8),
        ps(None, 5.0),
        ps(Some("bogus"), 1.0),
        ps(Some("commit_messages"), 80.0),
    ];
    let mut m = progress_from_samples(&samples);
    assert_eq!(m.message_types.len(), 2);
    let c = m.message_types.get(MessageType::CommitMessages).unwrap();
    assert_eq!(f64::from_bits(c.percent.bits), 80.0);
    assert_eq!((c.source_seq, c.dest_seq), (0, 0));
    apply_sequences(&mut m, &vec![ss(Some("commit_messages"), 100), ss(Some("inbox_log"), 7)], true);
    apply_sequences(&mut m, &vec![ss(Some("commit_messages"), 80), ss(Some("group_messages"), 9)], false);
    let c = m.message_types.get(MessageType::CommitMessages).unwrap();
    assert_eq!((c.source_seq, c.dest_seq), (100, 80));
    let g = m.message_types.get(MessageType::GroupMessages).unwrap();
    assert_eq!((g.source_seq, g.dest_seq), (0, 9));
    assert!(m.message_types.get(MessageType::InboxLog).is_none());
    assert_eq!(m.message_types.entry(0).0, MessageType::CommitMessages);
}
