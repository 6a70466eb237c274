use volume_backup::timestamp::{parse_backup_date, parse_timestamp_str, Timestamp};

#[test]
fn artifact_name_follows_the_convention() {
    let ts = Timestamp { year: 2024, month: 3, day: 5, hour: 7, minute: 9, second: 2 };
    assert_eq!(ts.artifact_name(), String::from("backup-2024-03-05T07-09-02.tar.gz"));
    assert_eq!(ts.format_timestamp(), String::from("2024-03-05T07-09-02"));
}

#[test]
fn name_round_trips_through_the_codec() {
    let ts = Timestamp { year: 2024, month: 12, day: 31, hour: 23, minute: 59, second: 59 };
    let name = ts.artifact_name();
    assert_eq!(parse_backup_date(name.as_str()), Some(ts));
    let early = Timestamp { year: 1, month: 1, day: 1, hour: 0, minute: 0, second: 0 };
    assert_eq!(parse_backup_date(early.artifact_name().as_str()), Some(early));
}

#[test]
fn malformed_names_do_not_parse() {
    assert_eq!(parse_backup_date("backup-2024-03-05T07-09-02.tar"), None);
    assert_eq!(parse_backup_date("2024-03-05T07-09-02.tar.gz"), None);
    assert_eq!(parse_backup_date("backup-2024-3-05T07-09-02.tar.gz"), None);
    assert_eq!(parse_backup_date("backup-2024-13-05T07-09-02.tar.gz"), None);
    assert_eq!(parse_backup_date("backup-2024-03-05 07-09-02.tar.gz"), None);
    assert_eq!(parse_backup_date("backup-.tar.gz"), None);
    assert_eq!(parse_backup_date("backup-2024-03-05T07-09-02x.tar.gz"), None);
}

#[test]
fn leap_days_parse_only_in_leap_years() {
    assert!(parse_timestamp_str("2024-02-29T00-00-00").is_some());
    assert_eq!(parse_timestamp_str("2023-02-29T00-00-00"), None);
    assert!(parse_timestamp_str("2000-02-29T00-00-00").is_some());
    assert_eq!(parse_timestamp_str("1900-02-29T00-00-00"), None);
    assert_eq!(parse_timestamp_str("2024-04-31T00-00-00"), None);
}

#[test]
fn epoch_seconds_matches_unix_time() {
    let epoch = Timestamp { year: 1970, month: 1, day: 1, hour: 0, minute: 0, second: 0 };
    assert_eq!(epoch.epoch_seconds(), 0);
    let y2024 = Timestamp { year: 2024, month: 1, day: 1, hour: 0, minute: 0, second: 0 };
    assert_eq!(y2024.epoch_seconds(), 1704067200);
    let before = Timestamp { year: 1969, month: 12, day: 31, hour: 23, minute: 59, second: 59 };
    assert_eq!(before.epoch_seconds(), -1);
    let leap = Timestamp { year: 2024, month: 2, day: 29, hour: 12, minute: 30, second: 45 };
    assert_eq!(leap.epoch_seconds(), 1709209845);
}

#[test]
fn ordering_of_names_follows_time() {
    let a = Timestamp { year: 2024, month: 3, day: 5, hour: 7, minute: 9, second: 2 };
    let b = Timestamp { year: 2024, month: 3, day: 5, hour: 7, minute: 9, second: 3 };
    assert!(a.epoch_seconds() < b.epoch_seconds());
    let c = Timestamp { year: 2023, month: 12, day: 31, hour: 23, minute: 59, second: 59 };
    let d = Timestamp { year: 2024, month: 1, day: 1, hour: 0, minute: 0, second: 0 };
    assert_eq!(c.epoch_seconds() + 1, d.epoch_seconds());
}
