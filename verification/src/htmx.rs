//! What the HTML fragments show, computed from the service's state.
use vstd::prelude::*;
use crate::health::{ContainerHealth, HealthMap};
use crate::migration::{MessageType, MigrationState, bar_colour, bar_text, label_of};
use crate::percent::{Percent, clamped_whole};
use crate::phase::{Phase, countdown_text, format_countdown, cutover_fits, TEARDOWN_OFFSET_NS};
use crate::text::{decimal, owned, padded2, push_char, push_decimal};
use crate::state::{all_digits, digits_value, lemma_padded2_digits};

verus! {

/// One row of the migration table.
#[derive(Debug)]
pub struct MigrationTableRow {
    pub name: String,
    pub bar: String,
    pub color: String,
    pub percent: String,
}

/// The row for one message type, given its percentage as display text.
pub fn migration_row(kind: MessageType, percent: Percent, percent_text: String) -> (r: MigrationTableRow)
    ensures
        r.name@ == label_of(kind),
        r.bar@ == bar_text(clamped_whole(percent.bits)),
        r.color@ == bar_colour(percent.bits),
        r.percent@ == percent_text@,
{
    MigrationTableRow {
        name: owned(kind.label()),
        bar: MigrationState::progress_bar(percent),
        color: owned(MigrationState::bar_color(percent)),
        percent: percent_text,
    }
}

/// `:` and the port, or nothing without a port.
pub open spec fn port_text(port: Option<u16>) -> Seq<char> {
    match port {
        Some(p) => seq![':'] + decimal(p as nat),
        None => Seq::empty(),
    }
}

/// `:` and the port, or nothing without a port.
pub fn format_port(port: Option<u16>) -> (s: String)
    ensures
        s@ == port_text(port),
{
    let mut s = String::new();
    match port {
        Some(p) => {
            push_char(&mut s, ':');
            push_decimal(&mut s, p as u64);
            assert(s@ =~= port_text(port));
        },
        None => {
            assert(s@ =~= port_text(port));
        },
    }
    s
}

/// The text std's `str::to_uppercase` gives (full Unicode case mapping).
pub uninterp spec fn uppercase_of(s: Seq<char>) -> Seq<char>;

/// `str::to_uppercase`. The mapping is Unicode's and is named, not stated.
#[verifier::external_body]
fn to_upper(s: &str) -> (u: String)
    ensures
        u@ == uppercase_of(s@),
{
    s.to_uppercase()
}

/// One row of the service health table.
#[derive(Debug)]
pub struct ServiceRow {
    pub display_name: String,
    pub port: String,
    pub up: bool,
    pub state_text: String,
}

/// The row for one container, given its state text in upper case.
pub fn service_row(c: &ContainerHealth, state_text: String) -> (r: ServiceRow)
    ensures
        r.display_name@ == c.display_name@,
        r.port@ == port_text(c.port),
        r.up == c.up,
        r.state_text@ == state_text@,
{
    ServiceRow { display_name: c.display_name.clone(), port: format_port(c.port), up: c.up, state_text }
}

/// One row per container, in container name order.
pub fn build_service_rows(health: &HealthMap) -> (rows: Vec<ServiceRow>)
    ensures
        rows@.len() == health.names().len(),
        forall|i: int|
            0 <= i < rows@.len() ==> {
                let c = health.vals()[i];
                &&& #[trigger] rows@[i].display_name@ == c.display_name@
                &&& rows@[i].port@ == port_text(c.port)
                &&& rows@[i].up == c.up
                &&& rows@[i].state_text@ == uppercase_of(c.state@)
            },
{
    let mut rows: Vec<ServiceRow> = Vec::new();
    let n = health.len();
    let mut i: usize = 0;
    while i < n
        invariant
            i <= n,
            n == health.names().len(),
            rows@.len() == i,
            forall|j: int|
                0 <= j < i ==> {
                    let c = health.vals()[j];
                    &&& #[trigger] rows@[j].display_name@ == c.display_name@
                    &&& rows@[j].port@ == port_text(c.port)
                    &&& rows@[j].up == c.up
                    &&& rows@[j].state_text@ == uppercase_of(c.state@)
                },
        decreases n - i,
    {
        let (_, c) = health.entry(i);
        let upper = to_upper(c.state.as_str());
        rows.push(service_row(c, upper));
        i += 1;
    }
    rows
}

/// The countdown text for a phase: the time left before cutover or teardown,
/// `--:--:--` when there is nothing to count; none while migrating (the
/// progress is shown instead).
pub open spec fn countdown_of(phase: Phase) -> Option<Seq<char>> {
    match phase {
        Phase::AwaitingCutover { countdown_ns } => Some(countdown_text(countdown_ns)),
        Phase::D14nActive { countdown_ns } => Some(countdown_text(countdown_ns)),
        Phase::Migrating { .. } => None,
        _ => Some("--:--:--"@),
    }
}

/// The countdown text shown under a phase.
pub fn phase_countdown(phase: &Phase) -> (t: Option<String>)
    ensures
        match t {
            Some(s) => countdown_of(*phase) == Some(s@),
            None => countdown_of(*phase) is None,
        },
{
    match phase {
        Phase::AwaitingCutover { countdown_ns } => Some(format_countdown(*countdown_ns)),
        Phase::D14nActive { countdown_ns } => Some(format_countdown(*countdown_ns)),
        Phase::Migrating { .. } => None,
        _ => Some(owned("--:--:--")),
    }
}

/// Whether `t` reads as `H:MM:SS` for `secs` seconds: hours (two digits or
/// more), minutes and seconds below 60 (two digits each), separated by `:`.
pub open spec fn reads_as_hms(t: Seq<char>, secs: int) -> bool {
    let l = t.len() as int;
    let hours = t.take(l - 6);
    let minutes = t.subrange(l - 5, l - 3);
    let seconds = t.subrange(l - 2, l);
    &&& l >= 8
    &&& t[l - 6] == ':' && t[l - 3] == ':'
    &&& all_digits(hours) && all_digits(minutes) && all_digits(seconds)
    &&& digits_value(minutes) < 60 && digits_value(seconds) < 60
    &&& digits_value(hours) * 3600 + digits_value(minutes) * 60 + digits_value(seconds) == secs
}

/// The countdown under a phase that counts down (awaiting cutover, d14n
/// active) is the time left, in whole seconds, as hours, minutes and seconds;
/// the phases with nothing to count (unknown, teardown imminent) show the
/// `--:--:--` placeholder; while migrating no countdown is shown.
pub proof fn lemma_countdown_shown(phase: Phase)
    ensures
        match phase {
            Phase::AwaitingCutover { countdown_ns } => countdown_of(phase) matches Some(t) && reads_as_hms(
                t,
                countdown_ns as int / 1_000_000_000,
            ),
            Phase::D14nActive { countdown_ns } => countdown_of(phase) matches Some(t) && reads_as_hms(
                t,
                countdown_ns as int / 1_000_000_000,
            ),
            Phase::Migrating { .. } => countdown_of(phase) is None,
            _ => countdown_of(phase) == Some("--:--:--"@),
        },
{
    match phase {
        Phase::AwaitingCutover { countdown_ns } => lemma_countdown_text_reads(countdown_ns),
        Phase::D14nActive { countdown_ns } => lemma_countdown_text_reads(countdown_ns),
        _ => {},
    }
}

proof fn lemma_countdown_text_reads(ns: u64)
    ensures
        reads_as_hms(countdown_text(ns), ns as int / 1_000_000_000),
{
    let secs = ns as int / 1_000_000_000;
    let h = (secs / 3600) as nat;
    let m = ((secs % 3600) / 60) as nat;
    let s = (secs % 60) as nat;
    assert(m < 60 && s < 60);
    lemma_padded2_digits(h);
    lemma_padded2_digits(m);
    lemma_padded2_digits(s);
    let ph = padded2(h);
    let pm = padded2(m);
    let ps = padded2(s);
    let t = countdown_text(ns);
    assert(t == ph + seq![':'] + pm + seq![':'] + ps);
    let l = t.len() as int;
    assert(l == ph.len() + 6);
    assert(t.take(l - 6) =~= ph);
    assert(t.subrange(l - 5, l - 3) =~= pm);
    assert(t.subrange(l - 2, l) =~= ps);
    assert(t[l - 6] == ':');
    assert(t[l - 3] == ':');
    assert(h * 3600 + m * 60 + s == secs) by (nonlinear_arith)
        requires
            secs >= 0,
            h == secs / 3600,
            m == (secs % 3600) / 60,
            s == secs % 60,
    ;
}

/// Where `now` stands in the eight-hour cycle around the cutover.
#[derive(Clone, Copy, Debug, PartialEq, Eq, Structural)]
pub enum Timeline {
    /// At or before the cycle's start (or no cutover time): 0%.
    Start,
    /// At or after the cycle's end: 100%.
    End,
    /// Inside the cycle: `elapsed` of `duration` nanoseconds.
    Within { elapsed: u64, duration: u64 },
}

/// The cycle runs from four hours before cutover (not before the epoch) to
/// four hours after.
pub open spec fn timeline_of(cutover_ns: Option<u64>, now: u64) -> Timeline {
    match cutover_ns {
        None => Timeline::Start,
        Some(c) => {
            let start = if c >= TEARDOWN_OFFSET_NS { c - TEARDOWN_OFFSET_NS } else { 0 };
            let end = c + TEARDOWN_OFFSET_NS;
            if now <= start {
                Timeline::Start
            } else if now >= end {
                Timeline::End
            } else {
                Timeline::Within { elapsed: (now - start) as u64, duration: (end - start) as u64 }
            }
        },
    }
}

/// Where `now` stands in the cycle.
pub fn timeline_position(cutover_ns: Option<u64>, now: u64) -> (t: Timeline)
    requires
        cutover_fits(cutover_ns),
    ensures
        t == timeline_of(cutover_ns, now),
{
    match cutover_ns {
        Some(cutover_ts) => {
            let cycle_start = cutover_ts.saturating_sub(TEARDOWN_OFFSET_NS);
            let cycle_end = cutover_ts + TEARDOWN_OFFSET_NS;
            let cycle_duration = cycle_end - cycle_start;
            if now <= cycle_start {
                Timeline::Start
            } else if now >= cycle_end {
                Timeline::End
            } else {
                Timeline::Within { elapsed: now - cycle_start, duration: cycle_duration }
            }
        },
        None => Timeline::Start,
    }
}

/// The cycle is eight hours, centred on the cutover: inside it, the position
/// runs strictly between its start and its end, and the cycle lasts twice the
/// four hours from cutover to teardown (once the cutover is at least four hours
/// after the epoch).
pub proof fn lemma_timeline_cycle(cutover_ns: u64, now: u64)
    requires
        cutover_fits(Some(cutover_ns)),
    ensures
        timeline_of(Some(cutover_ns), now) matches Timeline::Within { elapsed, duration } ==> (0 < elapsed
            < duration && (cutover_ns >= TEARDOWN_OFFSET_NS ==> duration == 2 * TEARDOWN_OFFSET_NS)),
        now >= cutover_ns + TEARDOWN_OFFSET_NS ==> timeline_of(Some(cutover_ns), now) == Timeline::End,
{
}

} // verus!
