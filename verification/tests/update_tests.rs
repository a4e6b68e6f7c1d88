use arrus::db::error::DatabaseError;
use arrus::db::http_client::{
    not_modified_response, ok_response, status_display, version_from_answer, DownloadAttempts, DownloadStep, HttpConfig,
    RequestOutcome,
};
use arrus::db::manager::{
    assess_download, first_comparison, game_counts, unchanged_comparison, update_failed, update_succeeded,
    DatabaseInfo, DatabaseMetrics, FilePathConfig, RetryStep, UpdateRetry,
};
use arrus::db::scheduler::{already_running, status_of, TriggerLine, UpdateSchedule, UpdateStatus, UpdateTrigger};
use arrus::db::validator::{DatabaseValidator, ValidationConfig};
use arrus::process::database::{ExecutableEntry, GameEntry};
use std::time::{Duration, SystemTime};

fn game(id: &str, os: &str) -> GameEntry {
    GameEntry {
        id: id.to_string(),
        name: id.to_uppercase(),
        executables: vec![ExecutableEntry { name: id.to_string(), os: os.to_string(), is_launcher: false, arguments: None }],
        aliases: vec![],
        hook: false,
        overlay: false,
    }
}

fn small_validator() -> DatabaseValidator {
    DatabaseValidator::new(ValidationConfig {
        strict_mode: false,
        max_database_size: 1 << 20,
        min_game_count: 1,
        require_linux_games: false,
    })
}

#[test]
fn http_defaults_and_url() {
    let c = HttpConfig::default();
    assert_eq!(c.url(), "https://discord.com/api/v9/applications/detectable");
    assert_eq!(c.user_agent, "arRPC-Rust/1.0");
    assert_eq!(c.max_retries, 3);
    assert_eq!(c.timeout, Duration::from_secs(30));
}

#[test]
fn download_attempts_retry_then_give_up() {
    let mut a = DownloadAttempts::new(3);
    assert_eq!(a.begin(), 1);
    assert!(matches!(a.after(RequestOutcome::Answered(200)), DownloadStep::ReadBody));
    assert!(matches!(a.after(RequestOutcome::Answered(304)), DownloadStep::NotModified));
    assert!(matches!(a.after(RequestOutcome::Answered(500)), DownloadStep::RetryNow));
    assert!(matches!(a.after(RequestOutcome::Failed("reset".to_string())), DownloadStep::RetryAfter { multiplier: Some(1) }));
    assert_eq!(a.begin(), 2);
    assert!(matches!(a.after(RequestOutcome::Failed("reset".to_string())), DownloadStep::RetryAfter { multiplier: Some(2) }));
    assert_eq!(a.begin(), 3);
    assert!(matches!(
        a.after(RequestOutcome::Answered(503)),
        DownloadStep::Fail(DatabaseError::HttpError { status: 503, message }) if message == "HTTP 503 Service Unavailable after 3 attempts"
    ));
    assert!(matches!(
        a.after(RequestOutcome::Failed("timeout".to_string())),
        DownloadStep::Fail(DatabaseError::NetworkError(m)) if m == "timeout"
    ));
}

#[test]
fn responses() {
    let r = ok_response(vec![1, 2], Some("\"e1\"".to_string()), None, Some("2".to_string()));
    assert_eq!(r.status, 200);
    assert_eq!(r.data, vec![1, 2]);
    assert_eq!(r.etag.as_deref(), Some("\"e1\""));
    assert_eq!(r.content_length, Some(2));
    let bad = ok_response(vec![], None, None, Some("lots".to_string()));
    assert_eq!(bad.content_length, None);
    let n = not_modified_response();
    assert_eq!(n.status, 304);
    assert!(n.data.is_empty());
    assert_eq!(n.content_length, Some(0));
    assert_eq!(version_from_answer(200, Some("v9".to_string())).unwrap(), "v9");
    assert_eq!(version_from_answer(204, None).unwrap(), "unknown");
    assert!(matches!(
        version_from_answer(404, None),
        Err(DatabaseError::HttpError { status: 404, message }) if message == "Failed to check database version"
    ));
}

#[test]
fn schedule_triggers_once_per_interval() {
    let mut s = UpdateSchedule::starting(true, 1000, 300, 60_000);
    assert_eq!(s.next, Some(1300));
    let t = s.tick(1100);
    assert!(!t.trigger_now);
    assert_eq!(t.sleep_ms, 200);
    let t = s.tick(1300);
    assert!(t.trigger_now);
    assert_eq!(t.sleep_ms, 60_000);
    assert_eq!(s.next, Some(61_300));
    assert!(!s.tick(2000).trigger_now);
    let mut off = UpdateSchedule::starting(false, 0, 300, 60_000);
    let t = off.tick(10_000_000);
    assert!(!t.trigger_now);
    assert_eq!(t.sleep_ms, 60_000);
}

#[test]
fn trigger_line() {
    let idle = TriggerLine::idle();
    assert!(!idle.is_running());
    assert!(matches!(idle.trigger_manual_update(), Err(DatabaseError::SchedulerError(m)) if m == "Scheduler not running"));
    assert!(idle.trigger_startup_update().is_ok());
    assert!(idle.trigger_process_detection_update().is_ok());
    let (tx, mut rx) = tokio::sync::mpsc::unbounded_channel();
    let mut line = TriggerLine::connected(tx);
    assert!(line.is_running());
    assert!(line.trigger_manual_update().is_ok());
    assert_eq!(rx.try_recv().unwrap(), UpdateTrigger::Manual);
    drop(rx);
    assert!(matches!(
        line.trigger_startup_update(),
        Err(DatabaseError::SchedulerError(m)) if m == "Failed to send startup update trigger"
    ));
    line.disconnect();
    assert!(!line.is_running());
    assert!(matches!(already_running(), DatabaseError::SchedulerError(m) if m == "Scheduler already running"));
}

#[test]
fn statuses() {
    assert!(matches!(status_of(Err("boom".to_string())), UpdateStatus::Failed(m) if m == "boom"));
    let now = SystemTime::now();
    let c = unchanged_comparison();
    let r = update_succeeded(UpdateTrigger::Manual, now, now, &c);
    assert!(r.success);
    assert_eq!(r.games_added, 0);
    assert!(matches!(status_of(Ok(r)), UpdateStatus::Success(_)));
}

#[test]
fn retries_of_an_update() {
    let mut r = UpdateRetry::new(2);
    assert!(r.can_attempt());
    assert_eq!(r.begin_attempt(), 1);
    assert!(matches!(r.attempt_failed("first".to_string()), RetryStep::RetryAfter { attempt: 1 }));
    assert_eq!(r.begin_attempt(), 2);
    assert!(matches!(r.attempt_failed("second".to_string()), RetryStep::Exhausted(m) if m == "second"));
    assert!(!r.can_attempt());
    assert_eq!(r.failure_message(), "second");
    assert!(matches!(update_failed(&r), DatabaseError::ConfigError(m) if m == "second"));
    assert_eq!(UpdateRetry::new(1).failure_message(), "Unknown update failure");
}

#[test]
fn assessing_a_download() {
    let v = small_validator();
    let first = assess_download(&v, b"[..]", Ok(vec![game("a", "linux"), game("b", "win32")]), None).ok().unwrap();
    assert_eq!(first.added_games.len(), 2);
    assert_eq!(first.stats_change.net_change, 2);
    let next = assess_download(&v, b"[..]", Ok(vec![game("a", "linux")]), Some(vec![game("a", "linux"), game("b", "win32")]))
        .ok()
        .unwrap();
    assert_eq!(next.removed_games.len(), 1);
    assert_eq!(next.stats_change.net_change, -1);
    let refused = assess_download(&v, b"x", Err("bad".to_string()), None);
    assert!(matches!(refused, Err(ref r) if !r.is_valid));
    let fc = first_comparison(&vec![game("z", "linux")]);
    assert_eq!(fc.stats_change.added_count, 1);
}

#[test]
fn metrics_and_counts() {
    assert_eq!(game_counts(&Ok(vec![game("a", "linux"), game("b", "win32")])), (Some(2), Some(1)));
    assert_eq!(game_counts(&Err("x".to_string())), (None, None));
    let mut m = DatabaseMetrics::new();
    m.begin_update();
    m.record_failure();
    m.begin_update();
    m.record_success(SystemTime::UNIX_EPOCH, Duration::from_millis(5));
    assert_eq!(m.total_update_attempts, 2);
    assert_eq!(m.failed_updates, 1);
    assert_eq!(m.successful_updates, 1);
    let info = DatabaseInfo {
        path: "/x".to_string(),
        exists: true,
        size: Some(10),
        last_modified: None,
        game_count: Some(3),
        linux_game_count: None,
        last_update: None,
    };
    m.refresh(&info, 4);
    assert_eq!(m.current_database_size, 10);
    assert_eq!(m.current_game_count, 3);
    assert_eq!(m.linux_game_count, 0);
    assert_eq!(m.backup_count, 4);
    let p = FilePathConfig::standard();
    assert_eq!(p.database_file, "./data/detectable.json");
}

#[test]
fn status_codes_are_written_like_http_does() {
    assert_eq!(status_display(404), "404 Not Found");
    assert_eq!(status_display(200), "200 OK");
    assert_eq!(status_display(599), "599 <unknown status code>");
    assert_eq!(status_display(42), "42 <unknown status code>");
}

#[test]
fn database_errors_read_as_their_messages() {

    assert_eq!(DatabaseError::NetworkError("timeout".to_string()).message(), "Network error: timeout");
    assert_eq!(
        DatabaseError::HttpError { status: 503, message: "Service Unavailable".to_string() }.message(),
        "HTTP error: status 503, message: Service Unavailable"
    );
    assert_eq!(DatabaseError::JsonError("eof".to_string()).message(), "JSON parsing error: eof");
    assert_eq!(DatabaseError::IoError("denied".to_string()).message(), "File system error: denied");
    assert_eq!(DatabaseError::ValidationError("empty".to_string()).message(), "Validation failed: empty");
    assert_eq!(DatabaseError::BackupError("gone".to_string()).message(), "Backup operation failed: gone");
    assert_eq!(DatabaseError::VerificationFailed.message(), "Atomic update verification failed");
    assert_eq!(DatabaseError::AtomicUpdateFailed.message(), "Atomic update failed");
    assert_eq!(DatabaseError::ConfigError("x".to_string()).message(), "Configuration error: x");
    assert_eq!(DatabaseError::SchedulerError("y".to_string()).message(), "Scheduler error: y");
}
