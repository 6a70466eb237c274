use volume_backup::errors::{parse_action, Action, ConfigError, TransportError};
use volume_backup::orchestrator::{select_containers_to_stop, CycleEvent, VolumeCycleState};
use volume_backup::paths::{join_path, volume_archive_path};
use volume_backup::restore::{
    extract_volumes_from_backup, missing_volume_message, ReplaceEvent, ReplaceState,
};
use volume_backup::scheduler::{decide_wait, Scheduler};
use volume_backup::retention::RetentionPolicy;
use volume_backup::server::{
    parse_delete_output, parse_list_output, select_deletions, Server, ServerConfig,
};

fn test_config() -> ServerConfig {
    ServerConfig {
        server_ip: String::from("192.0.2.7"),
        server_port: String::from("22"),
        server_user: String::from("backup"),
        server_directory: String::from("/srv/backups"),
        ssh_key_path: String::from(".ssh/id_rsa"),
    }
}

#[test]
fn failed_snapshot_still_resumes_the_stopped_containers() {
    // The quiesce records two containers; the snapshot fails; the machine
    // must still ask for exactly those containers to be started, and only
    // then report the snapshot failure.
    let handles = vec![String::from("c1"), String::from("c2")];
    let state = VolumeCycleState::Quiescing;
    let state = state.advance(CycleEvent::Stopped { handles: handles.clone() });
    let state = state.advance(CycleEvent::SnapshotFailed { message: String::from("disk full") });
    match &state {
        VolumeCycleState::Resuming { handles: h, pending_error } => {
            assert_eq!(h, &handles);
            assert_eq!(pending_error.as_deref(), Some("disk full"));
        }
        _ => panic!("snapshot outcome must lead to a resume"),
    }
    let state = state.advance(CycleEvent::Started);
    match state {
        VolumeCycleState::Done { error } => assert_eq!(error.as_deref(), Some("disk full")),
        _ => panic!("the cycle must finish after the resume"),
    }
}

#[test]
fn resume_failure_is_the_final_error() {
    let state = VolumeCycleState::Quiescing;
    let state = state.advance(CycleEvent::Stopped { handles: vec![String::from("c1")] });
    let state = state.advance(CycleEvent::SnapshotOk);
    let state = state.advance(CycleEvent::StartFailed { message: String::from("no runtime") });
    match state {
        VolumeCycleState::Done { error } => assert_eq!(error.as_deref(), Some("no runtime")),
        _ => panic!("a failed resume must finish the cycle"),
    }
}

#[test]
fn partial_stop_failure_still_resumes_what_was_stopped() {
    // One container was stopped before the quiesce failed: it must still
    // be routed through the resume, and the stop failure reported after.
    let state = VolumeCycleState::Quiescing;
    let state = state.advance(CycleEvent::StopFailed {
        handles: vec![String::from("c1")],
        message: String::from("daemon down"),
    });
    match &state {
        VolumeCycleState::Resuming { handles, pending_error } => {
            assert_eq!(handles, &vec![String::from("c1")]);
            assert_eq!(pending_error.as_deref(), Some("daemon down"));
        }
        _ => panic!("a failed stop must still lead to a resume"),
    }
    let state = state.advance(CycleEvent::Started);
    match state {
        VolumeCycleState::Done { error } => assert_eq!(error.as_deref(), Some("daemon down")),
        _ => panic!("a failed stop must finish the cycle after the resume"),
    }
}

#[test]
fn controller_never_stops_itself() {
    let listed = vec![
        String::from("abc123"),
        String::new(),
        String::from("me0000"),
        String::from("def456"),
    ];
    let chosen = select_containers_to_stop(listed, "me0000");
    assert_eq!(chosen, vec![String::from("abc123"), String::from("def456")]);
}

#[test]
fn selector_all_restores_every_bundled_volume() {
    let files = vec![
        String::from("a.tar.gz"),
        String::from("b.tar.gz"),
        String::from("c.tar.gz"),
    ];
    let volumes = extract_volumes_from_backup("all", &files);
    assert_eq!(volumes, vec![String::from("a"), String::from("b"), String::from("c")]);
}

#[test]
fn explicit_selector_restores_exactly_the_named_volumes() {
    let files = vec![
        String::from("a.tar.gz"),
        String::from("b.tar.gz"),
        String::from("c.tar.gz"),
    ];
    let volumes = extract_volumes_from_backup("a,c", &files);
    assert_eq!(volumes, vec![String::from("a"), String::from("c")]);
    let spaced = extract_volumes_from_backup(" a , c ", &files);
    assert_eq!(spaced, vec![String::from("a"), String::from("c")]);
}

#[test]
fn bundle_listing_ignores_files_without_the_extension() {
    let files = vec![
        String::from("a.tar.gz"),
        String::from("README"),
        String::from("b.tar.gz"),
    ];
    let volumes = extract_volumes_from_backup("all", &files);
    assert_eq!(volumes, vec![String::from("a"), String::from("b")]);
}

#[test]
fn paths_follow_the_layout() {
    assert_eq!(join_path("/srv/backups", "x.tar.gz"), String::from("/srv/backups/x.tar.gz"));
    assert_eq!(volume_archive_path("backup-temp", "db"), String::from("backup-temp/db.tar.gz"));
    assert_eq!(
        missing_volume_message("db"),
        String::from("Volume db does not exist.")
    );
}

#[test]
fn listing_output_is_split_into_lines() {
    let r = parse_list_output(0, "backup-a.tar.gz\nbackup-b.tar.gz\n").unwrap();
    assert_eq!(r, vec![String::from("backup-a.tar.gz"), String::from("backup-b.tar.gz")]);
    let crlf = parse_list_output(0, "one\r\ntwo").unwrap();
    assert_eq!(crlf, vec![String::from("one"), String::from("two")]);
    let empty = parse_list_output(0, "").unwrap();
    assert!(empty.is_empty());
    match parse_list_output(2, "ls: cannot access") {
        Err(TransportError::CommandFailed { output }) => {
            assert_eq!(output, String::from("ls: cannot access"));
        }
        _ => panic!("a non-zero exit status must fail"),
    }
}

#[test]
fn delete_output_checks_the_exit_status() {
    assert!(parse_delete_output(0, "").is_ok());
    match parse_delete_output(1, "rm: missing operand") {
        Err(TransportError::CommandFailed { output }) => {
            assert_eq!(output, String::from("rm: missing operand"));
        }
        _ => panic!("a non-zero exit status must fail"),
    }
}

#[test]
fn latest_backup_is_the_first_listed_line() {
    let server = Server::new(test_config());
    let name = server
        .parse_latest_output(0, "/srv/backups/backup-2024-03-30T12-00-00.tar.gz\n/srv/backups/backup-2024-03-29T12-00-00.tar.gz\n")
        .unwrap();
    assert_eq!(name, String::from("backup-2024-03-30T12-00-00.tar.gz"));
    match server.parse_latest_output(0, "") {
        Err(TransportError::NoBackups) => {}
        _ => panic!("an empty listing means no backups"),
    }
    match server.parse_latest_output(2, "ls: no matches") {
        Err(TransportError::CommandFailed { output }) => {
            assert_eq!(output, String::from("ls: no matches"));
        }
        _ => panic!("a non-zero exit status must be a hard error"),
    }
}

#[test]
fn remote_commands_are_built_from_the_configuration() {
    let server = Server::new(test_config());
    assert_eq!(server.list_files_command(), String::from("ls -1 /srv/backups"));
    assert_eq!(
        server.delete_file_command("backup-2024-03-30T12-00-00.tar.gz"),
        String::from("rm /srv/backups/backup-2024-03-30T12-00-00.tar.gz")
    );
    assert_eq!(
        server.latest_backup_command(),
        String::from("ls -t /srv/backups/backup-*.tar.gz")
    );
}

#[test]
fn server_config_reports_the_first_missing_variable() {
    let ok = ServerConfig::new_from_env(
        Some(String::from("192.0.2.7")),
        Some(String::from("22")),
        Some(String::from("backup")),
        Some(String::from("/srv/backups")),
        String::from(".ssh/id_rsa"),
    )
    .unwrap();
    assert_eq!(ok.server_directory, String::from("/srv/backups"));
    match ServerConfig::new_from_env(
        Some(String::from("192.0.2.7")),
        None,
        Some(String::from("backup")),
        None,
        String::from(".ssh/id_rsa"),
    ) {
        Err(ConfigError::MissingVar { name }) => assert_eq!(name, String::from("SERVER_PORT")),
        _ => panic!("a missing variable must be reported"),
    }
}

#[test]
fn scheduler_rejects_bad_expressions_and_accepts_cron() {
    match Scheduler::new("not a schedule") {
        Err(ConfigError::InvalidSchedule { .. }) => {}
        _ => panic!("a bad expression must be a configuration error"),
    }
    let mut scheduler = Scheduler::new("* * * * * *").unwrap();
    assert!(scheduler.last.is_none());
    let now = chrono::Utc::now().timestamp();
    let wait = scheduler.next_wait(now).unwrap();
    assert!(wait <= 2);
    let fired = scheduler.last.unwrap();
    // firing again on the same instant is skipped
    match scheduler.next_wait(now) {
        Some(_) => assert!(scheduler.last.unwrap() > fired),
        None => assert_eq!(scheduler.last.unwrap(), fired),
    }
}

#[test]
fn action_selector_is_validated() {
    assert!(matches!(parse_action("backup"), Ok(Action::Backup)));
    assert!(matches!(parse_action("restore"), Ok(Action::Restore)));
    match parse_action("prune") {
        Err(ConfigError::InvalidAction { action }) => assert_eq!(action, String::from("prune")),
        _ => panic!("an unknown action must be a configuration error"),
    }
}

#[test]
fn missing_mount_still_resumes_the_stopped_containers() {
    // The replacement stops two containers, then finds the mount path
    // missing: it must still resume exactly those containers and only
    // then report the configuration error.
    let handles = vec![String::from("c1"), String::from("c2")];
    let state = ReplaceState::Quiescing { volume: String::from("db") };
    let state = state.advance(ReplaceEvent::Stopped { handles: handles.clone() });
    let state = state.advance(ReplaceEvent::MountMissing);
    match &state {
        ReplaceState::Resuming { handles: h, pending_error } => {
            assert_eq!(h, &handles);
            assert_eq!(pending_error.as_deref(), Some("Volume db does not exist."));
        }
        _ => panic!("a missing mount must still lead to a resume"),
    }
    let state = state.advance(ReplaceEvent::Started);
    match state {
        ReplaceState::Done { error } => {
            assert_eq!(error, Some(missing_volume_message("db")));
        }
        _ => panic!("the replacement must finish after the resume"),
    }
}

#[test]
fn failed_swap_still_resumes_the_stopped_containers() {
    let state = ReplaceState::Quiescing { volume: String::from("db") };
    let state = state.advance(ReplaceEvent::Stopped { handles: vec![String::from("c1")] });
    let state = state.advance(ReplaceEvent::SwapFailed { message: String::from("device busy") });
    match &state {
        ReplaceState::Resuming { handles, pending_error } => {
            assert_eq!(handles, &vec![String::from("c1")]);
            assert_eq!(pending_error.as_deref(), Some("device busy"));
        }
        _ => panic!("a failed swap must still lead to a resume"),
    }
    let state = state.advance(ReplaceEvent::StartFailed { message: String::from("no runtime") });
    match state {
        ReplaceState::Done { error } => assert_eq!(error.as_deref(), Some("no runtime")),
        _ => panic!("a failed resume must finish the replacement"),
    }
}

#[test]
fn clean_swap_replaces_and_resumes() {
    let state = ReplaceState::Quiescing { volume: String::from("db") };
    let state = state.advance(ReplaceEvent::Stopped { handles: vec![String::from("c1")] });
    let state = state.advance(ReplaceEvent::SwapOk);
    let state = state.advance(ReplaceEvent::Started);
    match state {
        ReplaceState::Done { error } => assert_eq!(error, None),
        _ => panic!("a clean swap must finish without an error"),
    }
}

#[test]
fn wait_decision_fires_fresh_instants_and_skips_fired_ones() {
    // no resolvable instant: nothing to wait for, the record is kept
    assert_eq!(decide_wait(None, None, 5), (None, None));
    assert_eq!(decide_wait(Some(100), None, 5), (None, Some(100)));
    // a fresh instant is waited for and recorded
    assert_eq!(decide_wait(None, Some(100), 90), (Some(10), Some(100)));
    assert_eq!(decide_wait(Some(50), Some(100), 120), (Some(0), Some(100)));
    // an instant that already fired is skipped
    assert_eq!(decide_wait(Some(100), Some(100), 90), (None, Some(100)));
    assert_eq!(decide_wait(Some(150), Some(100), 90), (None, Some(150)));
}

#[test]
fn listing_deletions_filter_to_artifact_names() {
    // Only artifact-shaped names reach the engine; with a zero count the
    // engine selects them all, and other remote files are never touched.
    let files = vec![
        String::from("backup-2024-03-30T12-00-00.tar.gz"),
        String::from("notes.txt"),
        String::from("backup-2024-03-29T12-00-00.tar.gz"),
    ];
    let policy = RetentionPolicy { count: 0, period: 10000 };
    let deletions = select_deletions(&files, &policy, 1711800000);
    assert_eq!(
        deletions,
        vec![
            String::from("backup-2024-03-30T12-00-00.tar.gz"),
            String::from("backup-2024-03-29T12-00-00.tar.gz"),
        ]
    );
    let keep_all = select_deletions(&files, &RetentionPolicy::new_no_delete(), 1711800000);
    assert!(keep_all.is_empty());
}
