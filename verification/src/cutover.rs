//! The cutover time shown in a few time zones, computed with jiff.
use vstd::prelude::*;
use crate::text::owned;

verus! {

/// The text jiff's `Zoned::strftime` gives for `format` at the instant `ns`
/// nanoseconds after the epoch, seen in the fixed zone `offset_hours` from UTC.
pub uninterp spec fn zoned_text(ns: u64, offset_hours: i8, format: Seq<char>) -> Seq<char>;

/// The civil date (year, month, day) of the instant `ns` in the fixed zone
/// `offset_hours` from UTC, as jiff's `Zoned::date` gives it.
pub uninterp spec fn zoned_date_of(ns: u64, offset_hours: i8) -> (int, int, int);

/// The text jiff's `Timestamp::strftime` gives for `format` at the instant `ns`
/// (formatted in UTC).
pub uninterp spec fn utc_text(ns: u64, format: Seq<char>) -> Seq<char>;

/// Whether jiff accepts the instant (`Timestamp::from_nanosecond` is `Ok`).
/// jiff's range of instants runs from year -9999 to year 9999; every `u64`
/// count of nanoseconds since the epoch (up to year 2554) lies within it, so
/// the answer is always yes.
#[verifier::external_body]
fn instant_in_range(ns: u64) -> (ok: bool)
    ensures
        ok,
{
    jiff::Timestamp::from_nanosecond(ns as i128).is_ok()
}

/// `Timestamp::from_nanosecond(ns).to_zoned(TimeZone::fixed(offset(h))).strftime(format)`
/// as a string. `jiff::tz::offset` panics outside -25..=25 hours; the instant
/// is always in range (see [`instant_in_range`]); strftime ignores a malformed
/// format rather than failing. The text is named, not stated.
#[verifier::external_body]
fn format_in_zone(ns: u64, offset_hours: i8, format: &str) -> (s: String)
    requires
        -25 <= offset_hours <= 25,
    ensures
        s@ == zoned_text(ns, offset_hours, format@),
{
    let ts = jiff::Timestamp::from_nanosecond(ns as i128).unwrap();
    ts.to_zoned(jiff::tz::TimeZone::fixed(jiff::tz::offset(offset_hours))).strftime(format).to_string()
}

/// `Timestamp::from_nanosecond(ns).to_zoned(TimeZone::fixed(offset(h))).date()`
/// as (year, month, day). The date is named, not stated.
#[verifier::external_body]
fn date_in_zone(ns: u64, offset_hours: i8) -> (d: (i16, i8, i8))
    requires
        -25 <= offset_hours <= 25,
    ensures
        (d.0 as int, d.1 as int, d.2 as int) == zoned_date_of(ns, offset_hours),
{
    let ts = jiff::Timestamp::from_nanosecond(ns as i128).unwrap();
    let d = ts.to_zoned(jiff::tz::TimeZone::fixed(jiff::tz::offset(offset_hours))).date();
    (d.year(), d.month(), d.day())
}

/// `Timestamp::from_nanosecond(ns).strftime(format)` as a string. The text is
/// named, not stated.
#[verifier::external_body]
pub(crate) fn format_utc(ns: u64, format: &str) -> (s: String)
    ensures
        s@ == utc_text(ns, format@),
{
    let ts = jiff::Timestamp::from_nanosecond(ns as i128).unwrap();
    ts.strftime(format).to_string()
}

/// Whether civil date `a` comes after civil date `b` (`civil::Date`'s order:
/// by year, then month, then day).
pub open spec fn date_after(a: (int, int, int), b: (int, int, int)) -> bool {
    ||| a.0 > b.0
    ||| (a.0 == b.0 && a.1 > b.1)
    ||| (a.0 == b.0 && a.1 == b.1 && a.2 > b.2)
}

fn later_date(a: (i16, i8, i8), b: (i16, i8, i8)) -> (r: bool)
    ensures
        r == date_after((a.0 as int, a.1 as int, a.2 as int), (b.0 as int, b.1 as int, b.2 as int)),
{
    a.0 > b.0 || (a.0 == b.0 && a.1 > b.1) || (a.0 == b.0 && a.1 == b.1 && a.2 > b.2)
}

/// The number of time zones shown.
pub const ZONE_COUNT: usize = 6;

/// The time zones shown: (display label, offset hours, abbreviation).
pub open spec fn zone_spec(i: int) -> (Seq<char>, i8, Seq<char>) {
    if i == 0 {
        ("UTC"@, 0i8, "UTC"@)
    } else if i == 1 {
        ("EST"@, -4i8, "EDT"@)
    } else if i == 2 {
        ("CST"@, -5i8, "CDT"@)
    } else if i == 3 {
        ("PST"@, -7i8, "PDT"@)
    } else if i == 4 {
        ("CET"@, 2i8, "CEST"@)
    } else {
        ("JST"@, 9i8, "JST"@)
    }
}

fn zone(i: usize) -> (z: (&'static str, i8, &'static str))
    requires
        i < ZONE_COUNT,
    ensures
        (z.0@, z.1, z.2@) == zone_spec(i as int),
        -25 <= z.1 <= 25,
{
    if i == 0 {
        ("UTC", 0, "UTC")
    } else if i == 1 {
        ("EST", -4, "EDT")
    } else if i == 2 {
        ("CST", -5, "CDT")
    } else if i == 3 {
        ("PST", -7, "PDT")
    } else if i == 4 {
        ("CET", 2, "CEST")
    } else {
        ("JST", 9, "JST")
    }
}

/// The time shown for a zone: the local time; then, for zones other than UTC,
/// `+1` or `-1` when the local date is after or before the UTC date, a space
/// and the zone's abbreviation.
pub open spec fn zone_text(
    label: Seq<char>,
    abbr: Seq<char>,
    time: Seq<char>,
    local: (int, int, int),
    utc: (int, int, int),
) -> Seq<char> {
    if label == "UTC"@ {
        time
    } else if date_after(local, utc) {
        time + "+1 "@ + abbr
    } else if date_after(utc, local) {
        time + "-1 "@ + abbr
    } else {
        time + " "@ + abbr
    }
}

/// The time shown for the `i`-th zone at instant `ns`.
pub open spec fn zone_value(ns: u64, i: int) -> Seq<char> {
    let (label, off, abbr) = zone_spec(i);
    zone_text(label, abbr, zoned_text(ns, off, "%H:%M"@), zoned_date_of(ns, off), zoned_date_of(ns, 0i8))
}

/// The time shown for a zone, from its local time and the local and UTC dates.
pub fn zone_display(label: &str, abbr: &str, time: String, local_date: (i16, i8, i8), utc_date: (i16, i8, i8)) -> (s: String)
    ensures
        s@ == zone_text(
            label@,
            abbr@,
            time@,
            (local_date.0 as int, local_date.1 as int, local_date.2 as int),
            (utc_date.0 as int, utc_date.1 as int, utc_date.2 as int),
        ),
{
    if crate::text::text_eq(label, "UTC") {
        time
    } else if later_date(local_date, utc_date) {
        let mut s = time;
        s.append("+1 ");
        s.append(abbr);
        s
    } else if later_date(utc_date, local_date) {
        let mut s = time;
        s.append("-1 ");
        s.append(abbr);
        s
    } else {
        let mut s = time;
        s.append(" ");
        s.append(abbr);
        s
    }
}

/// How a local date compares with the UTC date: `+1` after it, `-1` before
/// it, nothing on the same day.
pub open spec fn day_mark(local: (int, int, int), utc: (int, int, int)) -> Seq<char> {
    if date_after(local, utc) {
        "+1"@
    } else if date_after(utc, local) {
        "-1"@
    } else {
        Seq::empty()
    }
}

/// The time shown in a zone other than UTC: the local time `"%H:%M"` at the
/// zone's fixed offset, its day mark against the UTC date, a space and the
/// abbreviation.
pub open spec fn shown_at_offset(ns: u64, offset_hours: i8, abbr: Seq<char>) -> Seq<char> {
    zoned_text(ns, offset_hours, "%H:%M"@) + day_mark(zoned_date_of(ns, offset_hours), zoned_date_of(ns, 0i8))
        + " "@ + abbr
}

/// The zones shown, in order, each at its real fixed offset from UTC: UTC
/// itself (time alone); EST shown as EDT, UTC-4; CST shown as CDT, UTC-5;
/// PST shown as PDT, UTC-7; CET shown as CEST, UTC+2; JST, UTC+9.
pub proof fn lemma_cutover_zone_table(ns: u64)
    ensures
        zone_spec(0).0 == "UTC"@ && zone_value(ns, 0) == zoned_text(ns, 0i8, "%H:%M"@),
        zone_spec(1).0 == "EST"@ && zone_value(ns, 1) == shown_at_offset(ns, -4i8, "EDT"@),
        zone_spec(2).0 == "CST"@ && zone_value(ns, 2) == shown_at_offset(ns, -5i8, "CDT"@),
        zone_spec(3).0 == "PST"@ && zone_value(ns, 3) == shown_at_offset(ns, -7i8, "PDT"@),
        zone_spec(4).0 == "CET"@ && zone_value(ns, 4) == shown_at_offset(ns, 2i8, "CEST"@),
        zone_spec(5).0 == "JST"@ && zone_value(ns, 5) == shown_at_offset(ns, 9i8, "JST"@),
{
    reveal_strlit("UTC");
    reveal_strlit("EST");
    reveal_strlit("CST");
    reveal_strlit("PST");
    reveal_strlit("CET");
    reveal_strlit("JST");
    assert("EST"@[0] != "UTC"@[0]);
    assert("CST"@[0] != "UTC"@[0]);
    assert("PST"@[0] != "UTC"@[0]);
    assert("CET"@[0] != "UTC"@[0]);
    assert("JST"@[0] != "UTC"@[0]);
    lemma_shown_at_offset(ns, "EST"@, -4i8, "EDT"@);
    lemma_shown_at_offset(ns, "CST"@, -5i8, "CDT"@);
    lemma_shown_at_offset(ns, "PST"@, -7i8, "PDT"@);
    lemma_shown_at_offset(ns, "CET"@, 2i8, "CEST"@);
    lemma_shown_at_offset(ns, "JST"@, 9i8, "JST"@);
}

proof fn lemma_shown_at_offset(ns: u64, label: Seq<char>, off: i8, abbr: Seq<char>)
    requires
        label != "UTC"@,
    ensures
        zone_text(label, abbr, zoned_text(ns, off, "%H:%M"@), zoned_date_of(ns, off), zoned_date_of(ns, 0i8))
            == shown_at_offset(ns, off, abbr),
{
    reveal_strlit("+1");
    reveal_strlit("-1");
    reveal_strlit("+1 ");
    reveal_strlit("-1 ");
    reveal_strlit(" ");
    let time = zoned_text(ns, off, "%H:%M"@);
    let local = zoned_date_of(ns, off);
    let utc = zoned_date_of(ns, 0i8);
    if date_after(local, utc) {
        assert(time + "+1 "@ + abbr =~= time + "+1"@ + " "@ + abbr);
    } else if date_after(utc, local) {
        assert(time + "-1 "@ + abbr =~= time + "-1"@ + " "@ + abbr);
    } else {
        assert(time + Seq::<char>::empty() + " "@ + abbr =~= time + " "@ + abbr);
    }
}

/// The pairs of a run of string pairs, as texts.
pub open spec fn pair_texts(v: Seq<(String, String)>) -> Seq<(Seq<char>, Seq<char>)> {
    v.map_values(|p: (String, String)| (p.0@, p.1@))
}

/// Format a cutover timestamp (nanoseconds) into (label, formatted_time) pairs.
pub fn format_cutover_times(ns: u64) -> (v: Vec<(String, String)>)
    ensures
        pair_texts(v@) == Seq::new(ZONE_COUNT as nat, |i: int| (zone_spec(i).0, zone_value(ns, i))),
{
    if !instant_in_range(ns) {
        let mut bad: Vec<(String, String)> = Vec::new();
        bad.push((owned("UTC"), owned("invalid timestamp")));
        return bad;
    }
    let utc_date = date_in_zone(ns, 0);
    let mut v: Vec<(String, String)> = Vec::new();
    let mut i: usize = 0;
    while i < ZONE_COUNT
        invariant
            i <= ZONE_COUNT,
            (utc_date.0 as int, utc_date.1 as int, utc_date.2 as int) == zoned_date_of(ns, 0i8),
            pair_texts(v@) == Seq::new(i as nat, |j: int| (zone_spec(j).0, zone_value(ns, j))),
        decreases ZONE_COUNT - i,
    {
        let (label, offset_h, abbr) = zone(i);
        let time_str = format_in_zone(ns, offset_h, "%H:%M");
        let local_date = date_in_zone(ns, offset_h);
        let value = zone_display(label, abbr, time_str, local_date, utc_date);
        let ghost before = pair_texts(v@);
        v.push((owned(label), value));
        assert(pair_texts(v@) =~= before.push((zone_spec(i as int).0, zone_value(ns, i as int))));
        i += 1;
        assert(pair_texts(v@) =~= Seq::new(i as nat, |j: int| (zone_spec(j).0, zone_value(ns, j))));
    }
    v
}

} // verus!
