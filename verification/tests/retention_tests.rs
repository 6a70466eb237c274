use volume_backup::engine::filter_backups_to_delete;
use volume_backup::retention::RetentionPolicy;
use volume_backup::timestamp::Timestamp;

fn march_name(day: u8) -> String {
    let ts = Timestamp { year: 2024, month: 3, day, hour: 12, minute: 0, second: 0 };
    ts.artifact_name()
}

fn march_noon_epoch(day: u8) -> i64 {
    let ts = Timestamp { year: 2024, month: 3, day, hour: 12, minute: 0, second: 0 };
    ts.epoch_seconds()
}

#[test]
fn even_distribution_keeps_every_second_artifact() {
    // Artifacts dated 10, 8, 6, 4, 2 and 0 days ago, a thirty-day window
    // and room for three: the pass over the six survivors keeps indices
    // 0, 2 and 4 of the newest-first order, so the artifacts dated 2, 6
    // and 10 days ago are deleted.
    let now = march_noon_epoch(30);
    let backups: Vec<String> =
        vec![march_name(20), march_name(22), march_name(24), march_name(26), march_name(28), march_name(30)];
    let policy = RetentionPolicy { count: 3, period: 30 };
    let deleted = filter_backups_to_delete(backups, &policy, now);
    assert_eq!(deleted, vec![march_name(20), march_name(24), march_name(28)]);
}

#[test]
fn artifact_outside_window_is_deleted_even_when_slots_are_free() {
    // A single artifact dated forty days ago with a thirty-day window:
    // the survivor pool is empty, so it is deleted although five slots
    // are free.
    let now = march_noon_epoch(30);
    let old = Timestamp { year: 2024, month: 2, day: 19, hour: 12, minute: 0, second: 0 };
    let backups: Vec<String> = vec![old.artifact_name()];
    let policy = RetentionPolicy { count: 5, period: 30 };
    let deleted = filter_backups_to_delete(backups, &policy, now);
    assert_eq!(deleted, vec![old.artifact_name()]);
}

#[test]
fn count_zero_deletes_everything() {
    let now = march_noon_epoch(30);
    let backups: Vec<String> = vec![march_name(30), march_name(29), march_name(1)];
    let policy = RetentionPolicy { count: 0, period: 10000 };
    let deleted = filter_backups_to_delete(backups.clone(), &policy, now);
    assert_eq!(deleted, backups);
}

#[test]
fn newest_artifact_is_never_deleted() {
    let now = march_noon_epoch(30);
    let backups: Vec<String> =
        vec![march_name(5), march_name(30), march_name(12), march_name(18)];
    let policy = RetentionPolicy { count: 1, period: 60 };
    let deleted = filter_backups_to_delete(backups, &policy, now);
    assert!(!deleted.contains(&march_name(30)));
    assert_eq!(deleted.len(), 3);
}

#[test]
fn unparseable_names_are_always_deleted() {
    let now = march_noon_epoch(30);
    let backups: Vec<String> = vec![
        String::from("notes.txt"),
        march_name(30),
        String::from("backup-2024-03-99T12-00-00.tar.gz"),
        String::from("backup-latest.tar.gz"),
    ];
    let policy = RetentionPolicy::new_no_delete();
    let deleted = filter_backups_to_delete(backups, &policy, now);
    assert_eq!(
        deleted,
        vec![
            String::from("notes.txt"),
            String::from("backup-2024-03-99T12-00-00.tar.gz"),
            String::from("backup-latest.tar.gz"),
        ]
    );
}

#[test]
fn selection_is_deterministic() {
    let now = march_noon_epoch(30);
    let backups: Vec<String> =
        vec![march_name(30), march_name(25), march_name(20), String::from("junk")];
    let policy = RetentionPolicy { count: 2, period: 15 };
    let first = filter_backups_to_delete(backups.clone(), &policy, now);
    let second = filter_backups_to_delete(backups, &policy, now);
    assert_eq!(first, second);
}

#[test]
fn retained_set_size_is_min_of_count_and_pool() {
    // Four parseable artifacts in the window, room for nine: everything
    // parseable survives, only the unparseable name goes.
    let now = march_noon_epoch(30);
    let backups: Vec<String> = vec![
        march_name(30),
        march_name(28),
        march_name(26),
        march_name(24),
        String::from("stray.log"),
    ];
    let policy = RetentionPolicy { count: 9, period: 30 };
    let deleted = filter_backups_to_delete(backups, &policy, now);
    assert_eq!(deleted, vec![String::from("stray.log")]);
}

#[test]
fn unbounded_policy_deletes_nothing_parseable() {
    let now = march_noon_epoch(30);
    let backups: Vec<String> = vec![march_name(30), march_name(1)];
    let policy = RetentionPolicy::new_no_delete();
    let deleted = filter_backups_to_delete(backups, &policy, now);
    assert!(deleted.is_empty());
}

#[test]
fn policy_from_env_values() {
    let p = RetentionPolicy::new_from_env(Some(String::from("7")), Some(String::from("30")));
    assert_eq!(p.count, 7);
    assert_eq!(p.period, 30);
    let q = RetentionPolicy::new_from_env(None, Some(String::from("not a number")));
    assert_eq!(q.count, usize::MAX);
    assert_eq!(q.period, usize::MAX);
    let r = RetentionPolicy::new_from_env(Some(String::from("+42")), None);
    assert_eq!(r.count, 42);
    assert_eq!(r.period, usize::MAX);
    let s = RetentionPolicy::new_from_env(Some(String::from("99999999999999999999999")), None);
    assert_eq!(s.count, usize::MAX);
}
