use ceda_harvest::text::{after_last, contains, ends_with, find, parse_u32, split, starts_with};

#[test]
fn parses_decimal_numbers_as_std_does() {
    assert_eq!(parse_u32("00144"), Some(144));
    assert_eq!(parse_u32("+7"), Some(7));
    assert_eq!(parse_u32("4294967295"), Some(u32::MAX));
    assert_eq!(parse_u32("4294967296"), None);
    assert_eq!(parse_u32(""), None);
    assert_eq!(parse_u32("+"), None);
    assert_eq!(parse_u32("12a"), None);
    assert_eq!(parse_u32("-1"), None);
    for s in ["0", "1994", "+12", "99999999999", "1.5", " 1"] {
        assert_eq!(parse_u32(s), s.parse::<u32>().ok(), "{}", s);
    }
}

#[test]
fn splits_as_std_does() {
    for (s, c) in [("a_b__c", '_'), ("", '_'), ("_", '_'), ("abc", '_'), ("1997.csv", '.')] {
        let expected: Vec<String> = s.split(c).map(|x| x.to_string()).collect();
        assert_eq!(split(s, c), expected);
    }
}

#[test]
fn searches_strings() {
    assert_eq!(find("abc.csv?x=.csv", ".csv"), Some(3));
    assert_eq!(find("abc", ".csv"), None);
    assert!(contains("x_capability.csv", "capability.csv"));
    assert!(starts_with("/badc/x", "/badc"));
    assert!(!starts_with("/bad", "/badc"));
    assert!(ends_with("/a/change_log_station_files", "change_log_station_files"));
    assert!(!ends_with("/a/change_log_station_files/", "change_log_station_files"));
    assert_eq!(after_last("a/b/c.csv", '/'), "c.csv");
    assert_eq!(after_last("c.csv", '/'), "c.csv");
}
