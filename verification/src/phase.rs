//! The lifecycle phase of an xnet instance around its cutover.
use vstd::prelude::*;
use crate::migration::{MigrationState, done_at, min_of};
use crate::percent::Percent;
use crate::text::{padded2, push_char, push_padded2};

verus! {

/// Nanoseconds per second.
pub const NS_PER_S: u64 = 1_000_000_000;

/// 4 hours from cutover to teardown, in nanoseconds.
pub const TEARDOWN_OFFSET_NS: u64 = 4 * 3600 * NS_PER_S;

/// Where the instance stands.
#[derive(Clone, Copy, Debug, PartialEq, Eq, Structural)]
pub enum Phase {
    Unknown,
    AwaitingCutover { countdown_ns: u64 },
    Migrating { min_percent: Percent },
    D14nActive { countdown_ns: u64 },
    TeardownImminent,
}

/// A phase without its data.
#[derive(Clone, Copy, Debug, PartialEq, Eq, Structural, Hash)]
pub enum PhaseKind {
    Unknown,
    AwaitingCutover,
    Migrating,
    D14nActive,
    TeardownImminent,
}

/// The kind of a phase.
pub open spec fn kind_of(p: Phase) -> PhaseKind {
    match p {
        Phase::Unknown => PhaseKind::Unknown,
        Phase::AwaitingCutover { .. } => PhaseKind::AwaitingCutover,
        Phase::Migrating { .. } => PhaseKind::Migrating,
        Phase::D14nActive { .. } => PhaseKind::D14nActive,
        Phase::TeardownImminent => PhaseKind::TeardownImminent,
    }
}

/// The position of a phase in the lifecycle.
pub open spec fn stage(p: Phase) -> int {
    match p {
        Phase::Unknown => 0,
        Phase::AwaitingCutover { .. } => 1,
        Phase::Migrating { .. } => 2,
        Phase::D14nActive { .. } => 3,
        Phase::TeardownImminent => 4,
    }
}

/// The banner label of a phase.
pub open spec fn label_of(p: Phase) -> Seq<char> {
    match p {
        Phase::Unknown => "UNKNOWN"@,
        Phase::AwaitingCutover { .. } => "AWAITING CUTOVER"@,
        Phase::Migrating { .. } => "MIGRATING"@,
        Phase::D14nActive { .. } => "D14N ACTIVE"@,
        Phase::TeardownImminent => "TEARDOWN IMMINENT"@,
    }
}

/// The line shown under the label.
pub open spec fn description_of(p: Phase) -> Seq<char> {
    match p {
        Phase::Unknown => "timestamp unavailable"@,
        Phase::AwaitingCutover { .. } => "until v3 \u{2192} d14n cutover"@,
        Phase::Migrating { .. } => "migrating v3 data to d14n..."@,
        Phase::D14nActive { .. } => "until teardown"@,
        Phase::TeardownImminent => "teardown imminent"@,
    }
}

/// The name the API gives a phase.
pub open spec fn api_name_of(p: Phase) -> Seq<char> {
    match p {
        Phase::Unknown => "unknown"@,
        Phase::AwaitingCutover { .. } => "awaiting_cutover"@,
        Phase::Migrating { .. } => "migrating"@,
        Phase::D14nActive { .. } => "d14n_active"@,
        Phase::TeardownImminent => "teardown_imminent"@,
    }
}

impl Phase {
    pub fn label(&self) -> (s: &'static str)
        ensures
            s@ == label_of(*self),
    {
        match self {
            Phase::Unknown => "UNKNOWN",
            Phase::AwaitingCutover { .. } => "AWAITING CUTOVER",
            Phase::Migrating { .. } => "MIGRATING",
            Phase::D14nActive { .. } => "D14N ACTIVE",
            Phase::TeardownImminent => "TEARDOWN IMMINENT",
        }
    }

    pub fn description(&self) -> (s: &'static str)
        ensures
            s@ == description_of(*self),
    {
        match self {
            Phase::Unknown => "timestamp unavailable",
            Phase::AwaitingCutover { .. } => "until v3 \u{2192} d14n cutover",
            Phase::Migrating { .. } => "migrating v3 data to d14n...",
            Phase::D14nActive { .. } => "until teardown",
            Phase::TeardownImminent => "teardown imminent",
        }
    }

    pub fn api_name(&self) -> (s: &'static str)
        ensures
            s@ == api_name_of(*self),
    {
        match self {
            Phase::Unknown => "unknown",
            Phase::AwaitingCutover { .. } => "awaiting_cutover",
            Phase::Migrating { .. } => "migrating",
            Phase::D14nActive { .. } => "d14n_active",
            Phase::TeardownImminent => "teardown_imminent",
        }
    }

    /// The kind of this phase.
    pub fn kind(&self) -> (k: PhaseKind)
        ensures
            k == kind_of(*self),
    {
        match self {
            Phase::Unknown => PhaseKind::Unknown,
            Phase::AwaitingCutover { .. } => PhaseKind::AwaitingCutover,
            Phase::Migrating { .. } => PhaseKind::Migrating,
            Phase::D14nActive { .. } => PhaseKind::D14nActive,
            Phase::TeardownImminent => PhaseKind::TeardownImminent,
        }
    }
}

/// Whether a cutover time leaves room for its teardown time in `u64`.
pub open spec fn cutover_fits(cutover_ns: Option<u64>) -> bool {
    cutover_ns matches Some(c) ==> c + TEARDOWN_OFFSET_NS <= u64::MAX
}

/// The phase at `now`: unknown without a cutover time; awaiting cutover before
/// it; migrating until migration is done; then d14n active until teardown,
/// four hours after cutover; then teardown imminent.
pub open spec fn phase_at(now: u64, cutover_ns: Option<u64>, done: bool, min_percent: u64) -> Phase {
    match cutover_ns {
        None => Phase::Unknown,
        Some(c) => {
            if now < c {
                Phase::AwaitingCutover { countdown_ns: (c - now) as u64 }
            } else if !done {
                Phase::Migrating { min_percent: Percent { bits: min_percent } }
            } else if now < c + TEARDOWN_OFFSET_NS {
                Phase::D14nActive { countdown_ns: (c + TEARDOWN_OFFSET_NS - now) as u64 }
            } else {
                Phase::TeardownImminent
            }
        },
    }
}

/// [`phase_at`] for a migration state.
pub open spec fn phase_of(now: u64, cutover_ns: Option<u64>, migration: MigrationState) -> Phase {
    phase_at(
        now,
        cutover_ns,
        match cutover_ns {
            Some(c) => done_at(
                migration.message_types.kinds().len() > 0,
                min_of(migration.percents()),
                c,
                now,
            ),
            None => false,
        },
        min_of(migration.percents()),
    )
}

/// The phase at `now`.
pub fn compute_phase_at(now: u64, cutover_ns: Option<u64>, migration: &MigrationState) -> (p: Phase)
    requires
        cutover_fits(cutover_ns),
    ensures
        p == phase_of(now, cutover_ns, *migration),
{
    let cutover = match cutover_ns {
        None => {
            return Phase::Unknown;
        },
        Some(c) => c,
    };
    let teardown_ns = cutover + TEARDOWN_OFFSET_NS;
    if now < cutover {
        Phase::AwaitingCutover { countdown_ns: cutover - now }
    } else if !migration.done(cutover, now) {
        Phase::Migrating { min_percent: migration.min_percent() }
    } else if now < teardown_ns {
        Phase::D14nActive { countdown_ns: teardown_ns - now }
    } else {
        Phase::TeardownImminent
    }
}

/// The phase now, by the system clock.
pub fn compute_phase(cutover_ns: Option<u64>, migration: &MigrationState) -> (p: Phase)
    requires
        cutover_fits(cutover_ns),
    ensures
        exists|now: u64| p == phase_of(now, cutover_ns, *migration),
{
    let now = now_ns();
    compute_phase_at(now, cutover_ns, migration)
}

/// Current unix timestamp in nanoseconds (std `SystemTime::now`); 0 when the
/// clock stands before the epoch. Nothing is stated of the value: it is the
/// clock's.
#[verifier::external_body]
pub fn now_ns() -> u64 {
    std::time::SystemTime::now().duration_since(std::time::UNIX_EPOCH).unwrap_or_default().as_nanos() as u64
}

/// `HH:MM:SS` for a duration in nanoseconds: whole hours (two digits or more),
/// minutes and seconds.
pub open spec fn countdown_text(ns: u64) -> Seq<char> {
    let total_s = ns / NS_PER_S;
    padded2((total_s / 3600) as nat) + seq![':'] + padded2(((total_s % 3600) / 60) as nat) + seq![':']
        + padded2((total_s % 60) as nat)
}

/// Format nanoseconds as HH:MM:SS countdown.
pub fn format_countdown(ns: u64) -> (s: String)
    ensures
        s@ == countdown_text(ns),
{
    let total_s = ns / NS_PER_S;
    let h = total_s / 3600;
    let m = (total_s % 3600) / 60;
    let sec = total_s % 60;
    let mut s = String::new();
    push_padded2(&mut s, h);
    push_char(&mut s, ':');
    push_padded2(&mut s, m);
    push_char(&mut s, ':');
    push_padded2(&mut s, sec);
    assert(s@ =~= countdown_text(ns));
    s
}

/// The phase never moves backwards in time: for a fixed cutover and migration
/// state, a later instant is at the same stage of the lifecycle or a later one.
pub proof fn lemma_phase_monotone(now1: u64, now2: u64, cutover_ns: Option<u64>, migration: MigrationState)
    requires
        now1 <= now2,
        cutover_fits(cutover_ns),
    ensures
        stage(phase_of(now1, cutover_ns, migration)) <= stage(phase_of(now2, cutover_ns, migration)),
{
    if let Some(c) = cutover_ns {
        let p = migration.message_types.kinds().len() > 0;
        let m = min_of(migration.percents());
        assert(done_at(p, m, c, now1) ==> done_at(p, m, c, now2));
    }
}

/// Countdowns count down to their event: before cutover the countdown reaches
/// cutover, during d14n it reaches teardown four hours after cutover.
pub proof fn lemma_countdowns(now: u64, cutover_ns: Option<u64>, migration: MigrationState)
    requires
        cutover_fits(cutover_ns),
    ensures
        phase_of(now, cutover_ns, migration) matches Phase::AwaitingCutover { countdown_ns } ==> (
            cutover_ns matches Some(c) && now + countdown_ns == c),
        phase_of(now, cutover_ns, migration) matches Phase::D14nActive { countdown_ns } ==> (
            cutover_ns matches Some(c) && now + countdown_ns == c + TEARDOWN_OFFSET_NS
            && countdown_ns <= TEARDOWN_OFFSET_NS),
{
}

} // verus!
