use xnet_status::state::{cutover_from_env, parse_u64};

fn chars(s: &str) -> Vec<char> {
    s.chars().collect()
}

#[test]
fn cutover_from_env_text() {
    assert_eq!(cutover_from_env("XNET_CUTOVER_TIMESTAMP=1776443504000000000\nOTHER=x\n"), Some(1776443504000000000));
    assert_eq!(cutover_from_env("SOME_OTHER_KEY=123\n"), None);
    assert_eq!(cutover_from_env(""), None);
    assert_eq!(cutover_from_env("A=1\r\nXNET_CUTOVER_TIMESTAMP= 42 \r\n"), Some(42));
    assert_eq!(cutover_from_env("XNET_CUTOVER_TIMESTAMP=42"), Some(42));
    // the first keyed line decides, even when it does not parse
    assert_eq!(cutover_from_env("XNET_CUTOVER_TIMESTAMP=soon\nXNET_CUTOVER_TIMESTAMP=7\n"), None);
    assert_eq!(cutover_from_env(" XNET_CUTOVER_TIMESTAMP=7\n"), None);
}

#[test]
fn u64_parsing_matches_std() {
    for s in ["0", "+5", "18446744073709551615", "18446744073709551616", "", "+", "-1", "1 2", "007", "99999999999999999999999"] {
        assert_eq!(parse_u64(&chars(s)), s.parse::<u64>().ok(), "input {s:?}");
    }
}

#[test]
fn decimal_text_reads_back() {
    for n in [0u64, 7, 10, 99, 1776443504000000000, u64::MAX] {
        let text = xnet_status::text::decimal_string(n);
        assert_eq!(text, n.to_string());
        assert_eq!(parse_u64(&chars(&text)), Some(n));
        assert_eq!(cutover_from_env(&format!("XNET_CUTOVER_TIMESTAMP={}\n", text)), Some(n));
    }
}
