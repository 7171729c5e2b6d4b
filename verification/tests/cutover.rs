use xnet_status::cutover::{format_cutover_times, zone_display};

#[test]
fn cutover_timezones() {
    let tz = format_cutover_times(1776443504_000_000_000); // 2026-04-17T16:31:44Z
    let map: std::collections::BTreeMap<_, _> = tz.into_iter().collect();
    assert_eq!(map["UTC"], "16:31");
    assert_eq!(map["EST"], "12:31 EDT");
    assert_eq!(map["PST"], "09:31 PDT");
    assert_eq!(map["JST"], "01:31+1 JST");
}

#[test]
fn cutover_day_before() {
    // 2026-04-18T02:00:00Z: in the US zones it is still the 17th
    let tz = format_cutover_times(1776477600_000_000_000);
    let map: std::collections::BTreeMap<_, _> = tz.into_iter().collect();
    assert_eq!(map["UTC"], "02:00");
    assert_eq!(map["EST"], "22:00-1 EDT");
    assert_eq!(map["CET"], "04:00 CEST");
    assert_eq!(map.len(), 6);
}

#[test]
fn zone_display_cases() {
    assert_eq!(zone_display("UTC", "UTC", "10:00".to_string(), (2026, 1, 2), (2026, 1, 1)), "10:00");
    assert_eq!(zone_display("JST", "JST", "01:00".to_string(), (2026, 1, 2), (2026, 1, 1)), "01:00+1 JST");
    assert_eq!(zone_display("PST", "PDT", "20:00".to_string(), (2025, 12, 31), (2026, 1, 1)), "20:00-1 PDT");
    assert_eq!(zone_display("CET", "CEST", "12:00".to_string(), (2026, 1, 1), (2026, 1, 1)), "12:00 CEST");
}
