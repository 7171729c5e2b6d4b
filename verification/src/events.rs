//! Lifecycle events pushed to subscribers, and the tracker that emits each
//! transition once.
use vstd::prelude::*;
use crate::health::HealthMap;
use crate::migration::{MigrationState, label_of, min_of};
use crate::percent::Percent;
use crate::phase::{Phase, PhaseKind, kind_of, api_name_of, NS_PER_S};
use crate::text::owned;

verus! {

/// Progress of one table.
#[derive(Clone, Debug)]
pub struct TableProgress {
    pub table: String,
    pub percent: Percent,
}

/// [`TableProgress`] with its name as a character sequence.
pub struct TableProgressView {
    pub table: Seq<char>,
    pub percent: Percent,
}

impl View for TableProgress {
    type V = TableProgressView;

    open spec fn view(&self) -> TableProgressView {
        TableProgressView { table: self.table@, percent: self.percent }
    }
}

/// The views of a run of table progress entries.
pub open spec fn tables_view(v: Seq<TableProgress>) -> Seq<TableProgressView> {
    v.map_values(|t: TableProgress| t@)
}

/// One table entry per message type, in message type order.
pub open spec fn tables_of(m: MigrationState) -> Seq<TableProgressView> {
    Seq::new(
        m.message_types.kinds().len(),
        |i: int|
            TableProgressView {
                table: label_of(m.message_types.kinds()[i]),
                percent: m.message_types.items()[i].percent,
            },
    )
}

impl TableProgress {
    /// One entry per message type of the migration, in order.
    pub fn from_migration(migration: &MigrationState) -> (v: Vec<Self>)
        ensures
            tables_view(v@) == tables_of(*migration),
    {
        let n = migration.message_types.len();
        let mut v: Vec<TableProgress> = Vec::new();
        let mut i: usize = 0;
        while i < n
            invariant
                i <= n,
                n == migration.message_types.kinds().len(),
                tables_view(v@) == tables_of(*migration).take(i as int),
            decreases n - i,
        {
            let (kind, p) = migration.message_types.entry(i);
            let t = TableProgress { table: owned(kind.label()), percent: p.percent };
            assert(t@ == tables_of(*migration)[i as int]);
            let ghost before = v@;
            v.push(t);
            assert(v@ == before.push(t));
            assert(tables_view(v@) =~= tables_view(before).push(t@));
            assert(tables_view(v@) =~= tables_of(*migration).take(i + 1));
            i += 1;
        }
        assert(tables_of(*migration).take(n as int) =~= tables_of(*migration));
        v
    }
}

/// Overall and per-table migration progress.
#[derive(Clone, Debug)]
pub struct MigrationSnapshot {
    pub overall_percent: Percent,
    pub tables: Vec<TableProgress>,
}

impl MigrationSnapshot {
    /// The lowest percentage and the per-table entries.
    pub fn from_migration(migration: &MigrationState) -> (s: Self)
        ensures
            s.overall_percent.bits == min_of(migration.percents()),
            tables_view(s.tables@) == tables_of(*migration),
    {
        MigrationSnapshot {
            overall_percent: migration.min_percent(),
            tables: TableProgress::from_migration(migration),
        }
    }
}

/// An event sent to subscribers.
#[derive(Clone, Debug)]
pub enum PhaseEvent {
    /// Sent as the first frame on connection. Gives the subscriber current state.
    Connected {
        phase: String,
        timestamp_s: u64,
        cutover_ts_s: Option<u64>,
        domain: String,
        migration: MigrationSnapshot,
    },
    V3Running { timestamp_s: u64, cutover_ts_s: Option<u64>, domain: String },
    AwaitingCutover {
        timestamp_s: u64,
        cutover_ts_s: u64,
        domain: String,
        seconds_until_cutover: u64,
    },
    CutoverStarted { timestamp_s: u64, domain: String },
    Migrating { timestamp_s: u64, domain: String, tables: Vec<TableProgress> },
    MigrationComplete { timestamp_s: u64, domain: String, duration_s: u64 },
    D14nActive { timestamp_s: u64, domain: String },
    TeardownImminent { timestamp_s: u64, domain: String },
}

/// [`PhaseEvent`] with its texts as character sequences.
pub enum PhaseEventView {
    Connected {
        phase: Seq<char>,
        timestamp_s: u64,
        cutover_ts_s: Option<u64>,
        domain: Seq<char>,
        overall_percent: Percent,
        tables: Seq<TableProgressView>,
    },
    V3Running { timestamp_s: u64, cutover_ts_s: Option<u64>, domain: Seq<char> },
    AwaitingCutover {
        timestamp_s: u64,
        cutover_ts_s: u64,
        domain: Seq<char>,
        seconds_until_cutover: u64,
    },
    CutoverStarted { timestamp_s: u64, domain: Seq<char> },
    Migrating { timestamp_s: u64, domain: Seq<char>, tables: Seq<TableProgressView> },
    MigrationComplete { timestamp_s: u64, domain: Seq<char>, duration_s: u64 },
    D14nActive { timestamp_s: u64, domain: Seq<char> },
    TeardownImminent { timestamp_s: u64, domain: Seq<char> },
}

impl View for PhaseEvent {
    type V = PhaseEventView;

    open spec fn view(&self) -> PhaseEventView {
        match self {
            PhaseEvent::Connected { phase, timestamp_s, cutover_ts_s, domain, migration } =>
                PhaseEventView::Connected {
                phase: phase@,
                timestamp_s: *timestamp_s,
                cutover_ts_s: *cutover_ts_s,
                domain: domain@,
                overall_percent: migration.overall_percent,
                tables: tables_view(migration.tables@),
            },
            PhaseEvent::V3Running { timestamp_s, cutover_ts_s, domain } => PhaseEventView::V3Running {
                timestamp_s: *timestamp_s,
                cutover_ts_s: *cutover_ts_s,
                domain: domain@,
            },
            PhaseEvent::AwaitingCutover { timestamp_s, cutover_ts_s, domain, seconds_until_cutover } =>
                PhaseEventView::AwaitingCutover {
                timestamp_s: *timestamp_s,
                cutover_ts_s: *cutover_ts_s,
                domain: domain@,
                seconds_until_cutover: *seconds_until_cutover,
            },
            PhaseEvent::CutoverStarted { timestamp_s, domain } => PhaseEventView::CutoverStarted {
                timestamp_s: *timestamp_s,
                domain: domain@,
            },
            PhaseEvent::Migrating { timestamp_s, domain, tables } => PhaseEventView::Migrating {
                timestamp_s: *timestamp_s,
                domain: domain@,
                tables: tables_view(tables@),
            },
            PhaseEvent::MigrationComplete { timestamp_s, domain, duration_s } =>
                PhaseEventView::MigrationComplete {
                timestamp_s: *timestamp_s,
                domain: domain@,
                duration_s: *duration_s,
            },
            PhaseEvent::D14nActive { timestamp_s, domain } => PhaseEventView::D14nActive {
                timestamp_s: *timestamp_s,
                domain: domain@,
            },
            PhaseEvent::TeardownImminent { timestamp_s, domain } => PhaseEventView::TeardownImminent {
                timestamp_s: *timestamp_s,
                domain: domain@,
            },
        }
    }
}

/// The views of a run of events.
pub open spec fn events_view(v: Seq<PhaseEvent>) -> Seq<PhaseEventView> {
    v.map_values(|e: PhaseEvent| e@)
}

/// Tracks which transitions have been emitted so we don't fire duplicates.
#[derive(Clone, Copy, Debug, PartialEq, Eq, Structural)]
pub struct TransitionTracker {
    pub last_phase_kind: Option<PhaseKind>,
    pub v3_running_emitted: bool,
    pub cutover_started_emitted: bool,
    pub migration_complete_emitted: bool,
    /// Set when we first see any migration progress after cutover.
    pub migration_start_ns: Option<u64>,
}

impl TransitionTracker {
    /// Nothing emitted yet.
    pub fn default() -> (t: Self)
        ensures
            t == (TransitionTracker {
                last_phase_kind: None,
                v3_running_emitted: false,
                cutover_started_emitted: false,
                migration_complete_emitted: false,
                migration_start_ns: None,
            }),
    {
        TransitionTracker {
            last_phase_kind: None,
            v3_running_emitted: false,
            cutover_started_emitted: false,
            migration_complete_emitted: false,
            migration_start_ns: None,
        }
    }
}

/// Internal container name used to detect "v3 running".
pub const V3_CONTAINER: &'static str = "xnet-node";

/// Whether the health map reports the v3 container up.
pub open spec fn v3_up(health: Map<Seq<char>, crate::health::ContainerHealth>) -> bool {
    health.contains_key("xnet-node"@) && health["xnet-node"@].up
}

/// Seconds of an optional nanosecond timestamp.
pub open spec fn seconds_of(ns: Option<u64>) -> Option<u64> {
    match ns {
        Some(n) => Some((n / NS_PER_S) as u64),
        None => None,
    }
}

/// Whole seconds from cutover to `now` (zero when `now` is earlier or the
/// cutover time is unknown).
pub open spec fn migration_duration_s(now: u64, cutover_ns: Option<u64>) -> u64 {
    match cutover_ns {
        Some(c) => ((if now >= c { now - c } else { 0 }) / NS_PER_S as int) as u64,
        None => 0,
    }
}

/// Whether `now` comes before cutover (or the cutover time is unknown).
pub open spec fn before_cutover(now: u64, cutover_ns: Option<u64>) -> bool {
    match cutover_ns {
        Some(c) => now < c,
        None => true,
    }
}

/// The events one observation emits and the tracker after it.
///
/// `v3_running` fires once, when the v3 container is first seen up before
/// cutover (or while the cutover time is unknown). Phase
/// events fire only when the phase kind differs from the last one seen:
/// `awaiting_cutover` (when the cutover time is known); `cutover_started`
/// (once) then `migrating`, recording when migration was first seen;
/// `migration_complete` (once) then `d14n_active`; `teardown_imminent`.
pub open spec fn transitions(
    t: TransitionTracker,
    now: u64,
    cutover_ns: Option<u64>,
    phase: Phase,
    tables: Seq<TableProgressView>,
    v3: bool,
    domain: Seq<char>,
) -> (TransitionTracker, Seq<PhaseEventView>) {
    let ts = (now / NS_PER_S) as u64;
    let (t1, e1) = if !t.v3_running_emitted && v3 && before_cutover(now, cutover_ns) {
        (
            TransitionTracker { v3_running_emitted: true, ..t },
            seq![
                PhaseEventView::V3Running {
                    timestamp_s: ts,
                    cutover_ts_s: seconds_of(cutover_ns),
                    domain,
                },
            ],
        )
    } else {
        (t, Seq::empty())
    };
    let kind = kind_of(phase);
    if t1.last_phase_kind == Some(kind) {
        (t1, e1)
    } else {
        let t2 = TransitionTracker { last_phase_kind: Some(kind), ..t1 };
        match phase {
            Phase::AwaitingCutover { countdown_ns } => match cutover_ns {
                Some(c) => (
                    t2,
                    e1.push(
                        PhaseEventView::AwaitingCutover {
                            timestamp_s: ts,
                            cutover_ts_s: (c / NS_PER_S) as u64,
                            domain,
                            seconds_until_cutover: (countdown_ns / NS_PER_S) as u64,
                        },
                    ),
                ),
                None => (t2, e1),
            },
            Phase::Migrating { .. } => {
                let (t3, e2) = if !t2.cutover_started_emitted {
                    (
                        TransitionTracker { cutover_started_emitted: true, ..t2 },
                        e1.push(PhaseEventView::CutoverStarted { timestamp_s: ts, domain }),
                    )
                } else {
                    (t2, e1)
                };
                let t4 = if t3.migration_start_ns is None {
                    TransitionTracker { migration_start_ns: Some(now), ..t3 }
                } else {
                    t3
                };
                (t4, e2.push(PhaseEventView::Migrating { timestamp_s: ts, domain, tables }))
            },
            Phase::D14nActive { .. } => {
                let (t3, e2) = if !t2.migration_complete_emitted {
                    (
                        TransitionTracker { migration_complete_emitted: true, ..t2 },
                        e1.push(
                            PhaseEventView::MigrationComplete {
                                timestamp_s: ts,
                                domain,
                                duration_s: migration_duration_s(now, cutover_ns),
                            },
                        ),
                    )
                } else {
                    (t2, e1)
                };
                (t3, e2.push(PhaseEventView::D14nActive { timestamp_s: ts, domain }))
            },
            Phase::TeardownImminent => (
                t2,
                e1.push(PhaseEventView::TeardownImminent { timestamp_s: ts, domain }),
            ),
            Phase::Unknown => (t2, e1),
        }
    }
}

/// Compute the set of events that should fire given the new state.
/// Updates `tracker` in place. Returns events in the order they should be emitted.
pub fn compute_transitions(
    tracker: &mut TransitionTracker,
    now_ns: u64,
    cutover_ns: Option<u64>,
    phase: &Phase,
    migration: &MigrationState,
    health: &HealthMap,
    domain: &str,
) -> (events: Vec<PhaseEvent>)
    requires
        health.wf(),
    ensures
        (*final(tracker), events_view(events@)) == transitions(
            *old(tracker),
            now_ns,
            cutover_ns,
            *phase,
            tables_of(*migration),
            v3_up(health@),
            domain@,
        ),
{
    let timestamp_s = now_ns / NS_PER_S;
    let kind = phase.kind();
    let mut events: Vec<PhaseEvent> = Vec::new();
    let cutover_ts_s = match cutover_ns {
        Some(ns) => Some(ns / NS_PER_S),
        None => None,
    };

    // v3_running: fires once when v3 container first reports healthy, pre-cutover.
    proof { reveal_strlit("xnet-node"); }
    let pre_cutover = match cutover_ns {
        Some(c) => now_ns < c,
        None => true,
    };
    if !tracker.v3_running_emitted && pre_cutover {
        if let Some(c) = health.get(V3_CONTAINER) {
            if c.up {
                tracker.v3_running_emitted = true;
                events.push(PhaseEvent::V3Running { timestamp_s, cutover_ts_s, domain: owned(domain) });
            }
        }
    }

    let same = match tracker.last_phase_kind {
        Some(k) => k == kind,
        None => false,
    };
    if !same {
        tracker.last_phase_kind = Some(kind);
        match phase {
            Phase::AwaitingCutover { countdown_ns } => {
                if let Some(cutover) = cutover_ns {
                    events.push(PhaseEvent::AwaitingCutover {
                        timestamp_s,
                        cutover_ts_s: cutover / NS_PER_S,
                        domain: owned(domain),
                        seconds_until_cutover: countdown_ns / NS_PER_S,
                    });
                }
            },
            Phase::Migrating { .. } => {
                if !tracker.cutover_started_emitted {
                    tracker.cutover_started_emitted = true;
                    events.push(PhaseEvent::CutoverStarted { timestamp_s, domain: owned(domain) });
                }
                if tracker.migration_start_ns.is_none() {
                    tracker.migration_start_ns = Some(now_ns);
                }
                events.push(PhaseEvent::Migrating {
                    timestamp_s,
                    domain: owned(domain),
                    tables: TableProgress::from_migration(migration),
                });
            },
            Phase::D14nActive { .. } => {
                // Reaching d14n means migration finished — emit completion once.
                if !tracker.migration_complete_emitted {
                    tracker.migration_complete_emitted = true;
                    let duration_s = match cutover_ns {
                        Some(c) => now_ns.saturating_sub(c) / NS_PER_S,
                        None => 0,
                    };
                    events.push(PhaseEvent::MigrationComplete {
                        timestamp_s,
                        domain: owned(domain),
                        duration_s,
                    });
                }
                events.push(PhaseEvent::D14nActive { timestamp_s, domain: owned(domain) });
            },
            Phase::TeardownImminent => {
                events.push(PhaseEvent::TeardownImminent { timestamp_s, domain: owned(domain) });
            },
            Phase::Unknown => {},
        }
    }
    let ghost spec_result = transitions(*old(tracker), now_ns, cutover_ns, *phase,
        tables_of(*migration), v3_up(health@), domain@);
    assert(events_view(events@) =~= spec_result.1);
    events
}

/// The first frame a subscriber receives: the current phase and progress.
pub fn build_connected_event(
    now_ns: u64,
    cutover_ns: Option<u64>,
    phase: &Phase,
    migration: &MigrationState,
    domain: &str,
) -> (e: PhaseEvent)
    ensures
        e@ == (PhaseEventView::Connected {
            phase: api_name_of(*phase),
            timestamp_s: (now_ns / NS_PER_S) as u64,
            cutover_ts_s: seconds_of(cutover_ns),
            domain: domain@,
            overall_percent: Percent { bits: min_of(migration.percents()) },
            tables: tables_of(*migration),
        }),
{
    PhaseEvent::Connected {
        phase: owned(phase.api_name()),
        timestamp_s: now_ns / NS_PER_S,
        cutover_ts_s: match cutover_ns {
            Some(ns) => Some(ns / NS_PER_S),
            None => None,
        },
        domain: owned(domain),
        migration: MigrationSnapshot::from_migration(migration),
    }
}

/// One observation fed to the tracker: the inputs of [`compute_transitions`].
pub struct Observation {
    pub now: u64,
    pub cutover_ns: Option<u64>,
    pub phase: Phase,
    pub tables: Seq<TableProgressView>,
    pub v3_up: bool,
    pub domain: Seq<char>,
}

/// [`transitions`] applied to one observation.
pub open spec fn step(t: TransitionTracker, o: Observation) -> (TransitionTracker, Seq<PhaseEventView>) {
    transitions(t, o.now, o.cutover_ns, o.phase, o.tables, o.v3_up, o.domain)
}

/// The tracker after a run of observations, and every event emitted on the way.
pub open spec fn run(t: TransitionTracker, obs: Seq<Observation>) -> (TransitionTracker, Seq<PhaseEventView>)
    decreases obs.len(),
{
    if obs.len() == 0 {
        (t, Seq::empty())
    } else {
        let (t1, e) = step(t, obs[0]);
        let (t2, es) = run(t1, obs.drop_first());
        (t2, e + es)
    }
}

/// The variant of an event, as a number.
pub open spec fn event_tag(e: PhaseEventView) -> int {
    match e {
        PhaseEventView::Connected { .. } => 0,
        PhaseEventView::V3Running { .. } => 1,
        PhaseEventView::AwaitingCutover { .. } => 2,
        PhaseEventView::CutoverStarted { .. } => 3,
        PhaseEventView::Migrating { .. } => 4,
        PhaseEventView::MigrationComplete { .. } => 5,
        PhaseEventView::D14nActive { .. } => 6,
        PhaseEventView::TeardownImminent { .. } => 7,
    }
}

/// How many events of a variant a run holds.
pub open spec fn count_tag(s: Seq<PhaseEventView>, tag: int) -> nat
    decreases s.len(),
{
    if s.len() == 0 {
        0
    } else {
        count_tag(s.drop_last(), tag) + if event_tag(s.last()) == tag {
            1nat
        } else {
            0nat
        }
    }
}

/// The flag that guards the once-only event of a variant (`v3_running`,
/// `cutover_started`, `migration_complete`).
pub open spec fn once_flag(t: TransitionTracker, tag: int) -> bool {
    if tag == 1 {
        t.v3_running_emitted
    } else if tag == 3 {
        t.cutover_started_emitted
    } else {
        t.migration_complete_emitted
    }
}

proof fn lemma_count_concat(a: Seq<PhaseEventView>, b: Seq<PhaseEventView>, tag: int)
    ensures
        count_tag(a + b, tag) == count_tag(a, tag) + count_tag(b, tag),
    decreases b.len(),
{
    if b.len() == 0 {
        assert(a + b =~= a);
    } else {
        lemma_count_concat(a, b.drop_last(), tag);
        assert((a + b).drop_last() =~= a + b.drop_last());
    }
}

proof fn lemma_count_small(s: Seq<PhaseEventView>, tag: int)
    ensures
        s.len() == 0 ==> count_tag(s, tag) == 0,
        s.len() == 1 ==> count_tag(s, tag) == if event_tag(s[0]) == tag { 1nat } else { 0nat },
{
    if s.len() == 1 {
        assert(s.drop_last().len() == 0);
        assert(count_tag(s.drop_last(), tag) == 0);
        assert(s.last() == s[0]);
    }
}

proof fn lemma_count_push(s: Seq<PhaseEventView>, e: PhaseEventView, tag: int)
    ensures
        count_tag(s.push(e), tag) == count_tag(s, tag) + if event_tag(e) == tag { 1nat } else { 0nat },
{
    assert(s.push(e).drop_last() =~= s);
}

/// One observation: the once-only flags never reset, and the event a flag
/// guards is emitted exactly when the observation sets that flag.
pub proof fn lemma_step_once_flags(t: TransitionTracker, o: Observation, tag: int)
    requires
        tag == 1 || tag == 3 || tag == 5,
    ensures
        once_flag(t, tag) ==> once_flag(step(t, o).0, tag),
        count_tag(step(t, o).1, tag) == if !once_flag(t, tag) && once_flag(step(t, o).0, tag) {
            1nat
        } else {
            0nat
        },
{
    let ts = (o.now / NS_PER_S) as u64;
    let v3e = seq![
        PhaseEventView::V3Running { timestamp_s: ts, cutover_ts_s: seconds_of(o.cutover_ns), domain: o.domain },
    ];
    lemma_count_small(v3e, tag);
    lemma_count_small(Seq::<PhaseEventView>::empty(), tag);
    let fire = !t.v3_running_emitted && o.v3_up && before_cutover(o.now, o.cutover_ns);
    let e1 = if fire { v3e } else { Seq::empty() };
    let t1 = if fire { TransitionTracker { v3_running_emitted: true, ..t } } else { t };
    let kind = kind_of(o.phase);
    if t1.last_phase_kind != Some(kind) {
        let t2 = TransitionTracker { last_phase_kind: Some(kind), ..t1 };
        match o.phase {
            Phase::AwaitingCutover { countdown_ns } => {
                if let Some(c) = o.cutover_ns {
                    lemma_count_push(e1, PhaseEventView::AwaitingCutover {
                        timestamp_s: ts,
                        cutover_ts_s: (c / NS_PER_S) as u64,
                        domain: o.domain,
                        seconds_until_cutover: (countdown_ns / NS_PER_S) as u64,
                    }, tag);
                }
            },
            Phase::Migrating { .. } => {
                let cs = PhaseEventView::CutoverStarted { timestamp_s: ts, domain: o.domain };
                lemma_count_push(e1, cs, tag);
                let e2 = if !t2.cutover_started_emitted { e1.push(cs) } else { e1 };
                lemma_count_push(e2, PhaseEventView::Migrating { timestamp_s: ts, domain: o.domain, tables: o.tables }, tag);
            },
            Phase::D14nActive { .. } => {
                let mc = PhaseEventView::MigrationComplete {
                    timestamp_s: ts,
                    domain: o.domain,
                    duration_s: migration_duration_s(o.now, o.cutover_ns),
                };
                lemma_count_push(e1, mc, tag);
                let e2 = if !t2.migration_complete_emitted { e1.push(mc) } else { e1 };
                lemma_count_push(e2, PhaseEventView::D14nActive { timestamp_s: ts, domain: o.domain }, tag);
            },
            Phase::TeardownImminent => {
                lemma_count_push(e1, PhaseEventView::TeardownImminent { timestamp_s: ts, domain: o.domain }, tag);
            },
            Phase::Unknown => {},
        }
    }
}

/// `v3_running`, `cutover_started` and `migration_complete` each fire at most
/// once over any run of observations, and never again once the tracker has
/// recorded them.
pub proof fn lemma_run_fires_once(t: TransitionTracker, obs: Seq<Observation>, tag: int)
    requires
        tag == 1 || tag == 3 || tag == 5,
    ensures
        count_tag(run(t, obs).1, tag) <= if once_flag(t, tag) { 0nat } else { 1nat },
        once_flag(t, tag) ==> once_flag(run(t, obs).0, tag),
    decreases obs.len(),
{
    if obs.len() == 0 {
        lemma_count_small(Seq::<PhaseEventView>::empty(), tag);
    } else {
        let (t1, e) = step(t, obs[0]);
        lemma_step_once_flags(t, obs[0], tag);
        lemma_run_fires_once(t1, obs.drop_first(), tag);
        lemma_count_concat(e, run(t1, obs.drop_first()).1, tag);
    }
}

/// Trackers and event lists as successive calls of [`compute_transitions`]
/// leave them: call `i` turns `ts[i]` into `ts[i + 1]` and returns `evs[i]`.
pub open spec fn successive_calls(
    ts: Seq<TransitionTracker>,
    obs: Seq<Observation>,
    evs: Seq<Seq<PhaseEventView>>,
) -> bool {
    &&& ts.len() == obs.len() + 1
    &&& evs.len() == obs.len()
    &&& forall|i: int| 0 <= i < obs.len() ==> (ts[i + 1], evs[i]) == #[trigger] step(ts[i], obs[i])
}

/// Over any number of calls of [`compute_transitions`] on one tracker, the
/// events returned, taken together, hold `v3_running`, `cutover_started` and
/// `migration_complete` at most once each (none at all when the first tracker
/// has already recorded it), and a call made on a tracker that has recorded
/// one of them returns none of it.
pub proof fn lemma_calls_fire_once(
    ts: Seq<TransitionTracker>,
    obs: Seq<Observation>,
    evs: Seq<Seq<PhaseEventView>>,
    tag: int,
)
    requires
        successive_calls(ts, obs, evs),
        tag == 1 || tag == 3 || tag == 5,
    ensures
        count_tag(evs.flatten(), tag) <= if once_flag(ts[0], tag) { 0nat } else { 1nat },
        forall|i: int| 0 <= i < evs.len() && once_flag(ts[i], tag) ==> count_tag(#[trigger] evs[i], tag) == 0,
    decreases obs.len(),
{
    assert forall|i: int| 0 <= i < evs.len() && once_flag(ts[i], tag) implies count_tag(#[trigger] evs[i], tag) == 0 by {
        assert(step(ts[i], obs[i]) == (ts[i + 1], evs[i]));
        lemma_step_once_flags(ts[i], obs[i], tag);
    }
    if obs.len() == 0 {
        lemma_count_small(evs.flatten(), tag);
    } else {
        assert(step(ts[0], obs[0]) == (ts[1], evs[0]));
        lemma_step_once_flags(ts[0], obs[0], tag);
        let ts2 = ts.drop_first();
        let obs2 = obs.drop_first();
        let evs2 = evs.drop_first();
        assert forall|i: int| 0 <= i < obs2.len() implies (ts2[i + 1], evs2[i]) == #[trigger] step(ts2[i], obs2[i]) by {
            assert(step(ts[i + 1], obs[i + 1]) == (ts[i + 2], evs[i + 1]));
        }
        lemma_calls_fire_once(ts2, obs2, evs2, tag);
        lemma_count_concat(evs[0], evs2.flatten(), tag);
    }
}

/// `v3_running` is a pre-cutover event: an observation at or after a known
/// cutover time never emits it.
pub proof fn lemma_v3_running_pre_cutover(t: TransitionTracker, o: Observation)
    requires
        !before_cutover(o.now, o.cutover_ns),
    ensures
        count_tag(step(t, o).1, 1) == 0,
        step(t, o).0.v3_running_emitted == t.v3_running_emitted,
{
    lemma_step_once_flags(t, o, 1);
}

/// Whole seconds: `secs` seconds are at most `ns` nanoseconds, and one more
/// second is more.
pub open spec fn whole_seconds(secs: u64, ns: int) -> bool {
    secs * 1_000_000_000 <= ns < (secs + 1) * 1_000_000_000
}

proof fn lemma_whole_seconds(ns: u64)
    ensures
        whole_seconds((ns / NS_PER_S) as u64, ns as int),
{
    assert(((ns / 1_000_000_000) as u64) * 1_000_000_000 <= ns < (((ns / 1_000_000_000) as u64) + 1) * 1_000_000_000)
        by (nonlinear_arith);
}

/// Reaching d14n reports that migration completed: an observation of
/// `d14n_active` on a tracker whose last phase kind was another one, and which
/// has not reported completion yet, emits `migration_complete` and then
/// `d14n_active`, whatever else the tracker holds (`cutover_started` seen or
/// not); only `v3_running` may come before them. Both carry the observation's
/// whole second and domain; the duration is the whole seconds from cutover to
/// the observation (zero before cutover or without a cutover time). The
/// tracker then records completion and the d14n phase.
pub proof fn lemma_d14n_reports_completion(t: TransitionTracker, o: Observation)
    requires
        o.phase is D14nActive,
        t.last_phase_kind != Some(PhaseKind::D14nActive),
        !t.migration_complete_emitted,
    ensures
        ({
            let (t2, e) = step(t, o);
            &&& t2.migration_complete_emitted
            &&& t2.last_phase_kind == Some(PhaseKind::D14nActive)
            &&& e.len() == 2 || (e.len() == 3 && e[0] is V3Running)
            &&& e.len() >= 2
            &&& (e[e.len() - 2] matches PhaseEventView::MigrationComplete { timestamp_s, domain, duration_s } && {
                &&& whole_seconds(timestamp_s, o.now as int)
                &&& domain == o.domain
                &&& match o.cutover_ns {
                    Some(c) => if o.now >= c {
                        whole_seconds(duration_s, o.now - c)
                    } else {
                        duration_s == 0
                    },
                    None => duration_s == 0,
                }
            })
            &&& (e[e.len() - 1] matches PhaseEventView::D14nActive { timestamp_s, domain } && whole_seconds(
                timestamp_s,
                o.now as int,
            ) && domain == o.domain)
        }),
{
    lemma_whole_seconds(o.now);
    if let Some(c) = o.cutover_ns {
        if o.now >= c {
            lemma_whole_seconds((o.now - c) as u64);
        }
    }
}

/// Only transitions are reported: an observation whose phase kind is the one
/// last seen emits nothing but, possibly, `v3_running`; and after any
/// observation the tracker holds that observation's phase kind.
pub proof fn lemma_step_reports_only_changes(t: TransitionTracker, o: Observation)
    ensures
        step(t, o).0.last_phase_kind == Some(kind_of(o.phase)),
        t.last_phase_kind == Some(kind_of(o.phase)) ==> forall|i: int|
            0 <= i < step(t, o).1.len() ==> event_tag(#[trigger] step(t, o).1[i]) == 1,
{
}

/// The time at which migration was first seen is recorded once and kept.
pub proof fn lemma_step_keeps_migration_start(t: TransitionTracker, o: Observation)
    ensures
        t.migration_start_ns is Some ==> step(t, o).0.migration_start_ns == t.migration_start_ns,
        o.phase is Migrating && t.last_phase_kind != Some(PhaseKind::Migrating) && t.migration_start_ns is None
            ==> step(t, o).0.migration_start_ns == Some(o.now),
{
}

} // verus!
