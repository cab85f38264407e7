use sei_nova::text::{
    is_lit, i64_to_string, parse_i64_exec, parse_u64_exec, strip_unit, u64_to_string, unit_i64_exec, unit_u64_exec,
    with_unit, with_unit_signed,
};
use chrono::Datelike;
use sei_nova::time::{day_key_of, pair_key_of, UtcStamp};

fn s(x: &str) -> String {
    x.to_string()
}

fn stamp(ts: &str) -> UtcStamp {
    let u = chrono::DateTime::parse_from_rfc3339(ts).unwrap().with_timezone(&chrono::Utc);
    let d = u.date_naive();
    let w = d.iso_week();
    UtcStamp {
        year: d.year(),
        month: d.month(),
        day: d.day(),
        iso_year: w.year(),
        iso_week: w.week(),
        days_from_ce: d.num_days_from_ce(),
        secs: u.timestamp(),
        nanos: u.timestamp_subsec_nanos(),
    }
}

#[test]
fn numbers_are_written_in_decimal() {
    assert_eq!(u64_to_string(0), "0");
    assert_eq!(u64_to_string(18446744073709551615), "18446744073709551615");
    assert_eq!(i64_to_string(-9223372036854775808), "-9223372036854775808");
    assert_eq!(with_unit(42), "42usei");
    assert_eq!(with_unit_signed(-7), "-7usei");
}

#[test]
fn numbers_parse_as_rust_does() {
    assert_eq!(parse_u64_exec("+12"), Some(12));
    assert_eq!(parse_u64_exec("18446744073709551616"), None);
    assert_eq!(parse_u64_exec(""), None);
    assert_eq!(parse_u64_exec("-1"), None);
    assert_eq!(parse_i64_exec("-9223372036854775808"), Some(i64::MIN));
    assert_eq!(parse_i64_exec("9223372036854775808"), None);
    assert_eq!(parse_i64_exec("-"), None);
    assert_eq!(parse_i64_exec("1 "), None);
}

#[test]
fn amounts_lose_their_last_four_bytes() {
    assert_eq!(strip_unit(&s("123usei")), Some(s("123")));
    assert_eq!(strip_unit(&s("usei")), Some(s("")));
    assert_eq!(strip_unit(&s("sei")), None);
    assert_eq!(unit_u64_exec(&s("900usei")), Some(900));
    assert_eq!(unit_i64_exec(&s("-5usei")), Some(-5));
    assert_eq!(unit_u64_exec(&s("12ab")), None);
}

#[test]
fn day_keys_are_written_with_padded_digits() {
    let t = stamp("2024-02-09T23:30:00Z");
    assert_eq!(day_key_of(&t), "2024-02-09");
    let early = stamp("0987-11-30T00:00:00Z");
    assert_eq!(day_key_of(&early), "0987-11-30");
}

#[test]
fn period_keys_join_two_numbers() {
    let t = stamp("2021-01-03T00:00:00Z");
    assert_eq!((t.iso_year, t.iso_week), (2020, 53));
    assert_eq!(pair_key_of(t.iso_year as i64, t.iso_week as u64), "2020-53");
    assert_eq!(pair_key_of(-3, 7), "-3-7");
}

#[test]
fn literal_comparison_by_characters() {
    assert!(is_lit(&s("usei"), "usei"));
    assert!(!is_lit(&s("usei"), "use"));
    assert!(!is_lit(&s("use"), "usei"));
    assert!(!is_lit(&s("usej"), "usei"));
    assert!(is_lit(&s(""), ""));
    assert!(is_lit(&s("é€"), "é€"));
    assert!(!is_lit(&s("é€"), "e€"));
}
