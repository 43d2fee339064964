use pinger::config::{object, parse_u64, parse_usize};
use pinger::db::TargetState;

#[test]
fn configuration_keeps_its_parts() {
    let c = object(
        30,
        String::from("monitor"),
        String::from("pw"),
        15,
    );
    assert_eq!(c.log_days_retention, 30);
    assert_eq!(c.db_username, "monitor");
    assert_eq!(c.db_password, "pw");
    assert_eq!(c.db_sync_interval, 15);
}

#[test]
fn decimal_strings_parse_exactly() {
    assert_eq!(parse_u64("0"), Some(0));
    assert_eq!(parse_u64("15"), Some(15));
    assert_eq!(parse_u64("007"), Some(7));
    assert_eq!(parse_u64("18446744073709551615"), Some(u64::MAX));
}

#[test]
fn malformed_decimal_strings_are_rejected() {
    assert_eq!(parse_u64(""), None);
    assert_eq!(parse_u64("12a"), None);
    assert_eq!(parse_u64("-4"), None);
    assert_eq!(parse_u64(" 4"), None);
    assert_eq!(parse_u64("18446744073709551616"), None);
}

#[test]
fn usize_parsing_matches_u64_parsing_in_range() {
    assert_eq!(parse_usize("1234"), Some(1234));
    assert_eq!(parse_usize(""), None);
    assert_eq!(parse_usize("9x"), None);
}

#[test]
fn state_codes_round_trip() {
    for s in [
        TargetState::Unknown,
        TargetState::Up,
        TargetState::Down,
        TargetState::Timeout,
    ] {
        assert_eq!(TargetState::from_code(s.code()), Some(s));
    }
    assert_eq!(TargetState::Unknown.code(), 0);
    assert_eq!(TargetState::Up.code(), 1);
    assert_eq!(TargetState::Down.code(), 2);
    assert_eq!(TargetState::Timeout.code(), 3);
}

#[test]
fn unknown_state_codes_are_rejected() {
    assert_eq!(TargetState::from_code(4), None);
    assert_eq!(TargetState::from_code(-1), None);
}
