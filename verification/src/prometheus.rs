//! Turning Prometheus query results into migration progress.
use vstd::prelude::*;
use crate::migration::{MessageType, MessageTypeProgress, MigrationState, ProgressMap, label_of, with_sequence};
use crate::percent::Percent;
use crate::text::text_eq;

verus! {

/// The message type a metric's `table` label names, if any.
pub open spec fn message_type_of(s: Seq<char>) -> Option<MessageType> {
    if s == label_of(MessageType::CommitMessages) {
        Some(MessageType::CommitMessages)
    } else if s == label_of(MessageType::GroupMessages) {
        Some(MessageType::GroupMessages)
    } else if s == label_of(MessageType::KeyPackages) {
        Some(MessageType::KeyPackages)
    } else if s == label_of(MessageType::InboxLog) {
        Some(MessageType::InboxLog)
    } else {
        None
    }
}

/// The message type a metric's `table` label names.
pub fn parse_message_type(s: &str) -> (t: Option<MessageType>)
    ensures
        t == message_type_of(s@),
{
    if text_eq(s, "commit_messages") {
        Some(MessageType::CommitMessages)
    } else if text_eq(s, "group_messages") {
        Some(MessageType::GroupMessages)
    } else if text_eq(s, "key_packages") {
        Some(MessageType::KeyPackages)
    } else if text_eq(s, "inbox_log") {
        Some(MessageType::InboxLog)
    } else {
        None
    }
}

/// One result of a Prometheus vector query: the `table` label and the value.
pub struct PercentSample {
    pub table: Option<String>,
    /// The value read as a percentage (0.0 where it does not parse).
    pub percent: Percent,
}

/// One result of a sequence-id query: the `table` label and the value.
pub struct SequenceSample {
    pub table: Option<String>,
    /// The value read as a number, truncated to an integer (0 where it does not parse).
    pub value: u64,
}

/// The message type a sample's label names, if any.
pub open spec fn sample_type(table: Option<String>) -> Option<MessageType> {
    match table {
        Some(t) => message_type_of(t@),
        None => None,
    }
}

fn type_of_label(table: &Option<String>) -> (t: Option<MessageType>)
    ensures
        t == sample_type(*table),
{
    match table {
        Some(s) => parse_message_type(s.as_str()),
        None => None,
    }
}

/// The progress recorded for one sample: sequences unknown yet.
pub open spec fn sample_progress(p: Percent) -> MessageTypeProgress {
    MessageTypeProgress { source_seq: 0, dest_seq: 0, percent: p }
}

/// The samples of the percentage query, by the message type they name.
pub open spec fn percent_samples(s: Seq<PercentSample>) -> Seq<(Option<MessageType>, Percent)> {
    s.map_values(|x: PercentSample| (sample_type(x.table), x.percent))
}

/// The samples of a sequence query, by the message type they name.
pub open spec fn sequence_samples(s: Seq<SequenceSample>) -> Seq<(Option<MessageType>, u64)> {
    s.map_values(|x: SequenceSample| (sample_type(x.table), x.value))
}

/// Progress per message type from the percentage query: each sample whose
/// label names a message type sets that type's entry, a later sample
/// replacing an earlier one; other samples are skipped.
pub open spec fn percent_map(s: Seq<(Option<MessageType>, Percent)>) -> Map<MessageType, MessageTypeProgress>
    decreases s.len(),
{
    if s.len() == 0 {
        Map::empty()
    } else {
        let m = percent_map(s.drop_last());
        match s.last().0 {
            Some(t) => m.insert(t, sample_progress(s.last().1)),
            None => m,
        }
    }
}

/// Sequence ids recorded into existing entries, sample by sample; samples
/// naming no message type, or a type without an entry, change nothing.
pub open spec fn sequences_applied(
    m: Map<MessageType, MessageTypeProgress>,
    s: Seq<(Option<MessageType>, u64)>,
    source: bool,
) -> Map<MessageType, MessageTypeProgress>
    decreases s.len(),
{
    if s.len() == 0 {
        m
    } else {
        let prev = sequences_applied(m, s.drop_last(), source);
        match s.last().0 {
            Some(t) => if prev.contains_key(t) {
                prev.insert(t, with_sequence(prev[t], s.last().1, source))
            } else {
                prev
            },
            None => prev,
        }
    }
}

/// Builds the migration state from the percentage query's samples.
pub fn progress_from_samples(samples: &Vec<PercentSample>) -> (m: MigrationState)
    ensures
        m.message_types.wf(),
        m.message_types@ == percent_map(percent_samples(samples@)),
{
    let ghost all = percent_samples(samples@);
    let mut map = ProgressMap::new();
    let mut i: usize = 0;
    assert(all.take(0) =~= Seq::<(Option<MessageType>, Percent)>::empty());
    while i < samples.len()
        invariant
            i <= samples.len(),
            all == percent_samples(samples@),
            map.wf(),
            map@ == percent_map(all.take(i as int)),
        decreases samples.len() - i,
    {
        let s = &samples[i];
        assert(all.take(i + 1).drop_last() =~= all.take(i as int));
        assert(all.take(i + 1).last() == (sample_type(s.table), s.percent));
        match type_of_label(&s.table) {
            Some(t) => {
                map.insert(t, MessageTypeProgress { source_seq: 0, dest_seq: 0, percent: s.percent });
            },
            None => {},
        }
        i += 1;
    }
    assert(all.take(samples.len() as int) =~= all);
    MigrationState { message_types: map }
}

/// Records the sequence ids of a sequence query in the entries the
/// percentage query made: source ids when `source`, destination ids otherwise.
pub fn apply_sequences(state: &mut MigrationState, samples: &Vec<SequenceSample>, source: bool)
    requires
        old(state).message_types.wf(),
    ensures
        final(state).message_types.wf(),
        final(state).message_types.kinds() == old(state).message_types.kinds(),
        final(state).message_types@ == sequences_applied(
            old(state).message_types@,
            sequence_samples(samples@),
            source,
        ),
{
    let ghost all = sequence_samples(samples@);
    let mut i: usize = 0;
    assert(all.take(0) =~= Seq::<(Option<MessageType>, u64)>::empty());
    while i < samples.len()
        invariant
            i <= samples.len(),
            all == sequence_samples(samples@),
            state.message_types.wf(),
            state.message_types.kinds() == old(state).message_types.kinds(),
            state.message_types@ == sequences_applied(old(state).message_types@, all.take(i as int), source),
        decreases samples.len() - i,
    {
        let s = &samples[i];
        assert(all.take(i + 1).drop_last() =~= all.take(i as int));
        assert(all.take(i + 1).last() == (sample_type(s.table), s.value));
        if let Some(t) = type_of_label(&s.table) {
            state.message_types.set_sequence(t, s.value, source);
        }
        i += 1;
    }
    assert(all.take(samples.len() as int) =~= all);
}

} // verus!
