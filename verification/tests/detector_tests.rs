use arrus::database::{DatabaseChange, ExecutableEntry, GameDatabase, GameEntry, OperatingSystem};
use arrus::detector::{ChangeSignal, Matcher, MatchingCache, PathProcessor, ProcessDetector, ProcessInfo, ProcessScanner};

fn exe(name: &str, os: OperatingSystem, launcher: bool, args: Option<&str>) -> ExecutableEntry {
    ExecutableEntry { name: name.to_string(), os, is_launcher: launcher, arguments: args.map(|a| a.to_string()) }
}

fn db() -> GameDatabase {
    GameDatabase::new(
        vec![
            GameEntry { id: "l".to_string(), name: "Launcher".to_string(), executables: vec![exe("game", OperatingSystem::Linux, true, None)] },
            GameEntry { id: "g".to_string(), name: "Game".to_string(), executables: vec![exe("game", OperatingSystem::Windows, false, None)] },
            GameEntry { id: "j".to_string(), name: "Java".to_string(), executables: vec![exe(">java", OperatingSystem::Linux, false, Some("mc.jar"))] },
        ],
        "t".to_string(),
    )
}

fn process(pid: u32, path: &str, args: &[&str]) -> ProcessInfo {
    ProcessInfo { pid, executable_path: path.to_string(), arguments: args.iter().map(|a| a.to_string()).collect() }
}

#[test]
fn variants_of_a_path() {
    let p = PathProcessor::new();
    assert_eq!(p.process_path("/A/Game64").variants, vec!["game64", "game", "a/game64", "a/game"]);
    assert_eq!(p.process_path("C:\\x\\y.exe").variants, vec!["y.exe", "x/y.exe"]);
    assert_eq!(PathProcessor::generate_cleaned_variants(&"a.x64".chars().collect()).len(), 3);
}

#[test]
fn matcher_skips_launchers_and_checks_arguments() {
    let db = db();
    let m = Matcher;
    let p = PathProcessor::new();
    assert_eq!(m.find_match(&db, &p.process_path("/opt/game"), &[]).unwrap().id, "g");
    let java = p.process_path("/usr/bin/java");
    assert_eq!(m.find_match(&db, &java, &["-jar".to_string(), "mc.jar".to_string()]).unwrap().id, "j");
    assert!(m.find_match(&db, &java, &[]).is_none());
}

#[test]
fn scanner_parses_command_lines() {
    let s = ProcessScanner::new();
    assert_eq!(s.get_proc_path(), "/proc");
    let (e, a) = s.parse_cmdline("java\0-jar\0mc.jar");
    assert_eq!(e, "java");
    assert_eq!(a, vec!["-jar".to_string(), "mc.jar".to_string()]);
}

#[test]
fn cache_remembers_and_is_dropped_on_change() {
    let db = db();
    let mut cache = MatchingCache::new();
    let procs = vec![process(1, "/opt/game", &[]), process(2, "/bin/sh", &[]), process(3, "/opt/game", &[])];
    let found = cache.detect(&db, &procs, &PathProcessor::new());
    assert_eq!(found.len(), 2);
    assert_eq!(found[0].0.id, "g");
    assert_eq!(found[0].1, 1);
    assert_eq!(found[1].1, 3);
    assert_eq!(cache.len(), 2);
    let again = cache.detect(&db, &procs, &PathProcessor::new());
    assert_eq!(again.len(), 2);
    cache.apply_change(&ChangeSignal::Received(DatabaseChange::Unchanged));
    assert_eq!(cache.len(), 2);
    cache.apply_change(&ChangeSignal::Empty);
    assert_eq!(cache.len(), 2);
    cache.apply_change(&ChangeSignal::Received(DatabaseChange::Added));
    assert_eq!(cache.len(), 0);
    cache.detect(&db, &procs, &PathProcessor::new());
    cache.apply_change(&ChangeSignal::Lagged(3));
    assert_eq!(cache.len(), 0);
}

#[test]
fn detector_scans_and_reports() {
    let db = db();
    let (tx, mut rx) = tokio::sync::mpsc::unbounded_channel();
    let (change_tx, change_rx) = tokio::sync::broadcast::channel(4);
    let mut d = ProcessDetector::new(tx, change_rx);
    d.scan_cycle(&db, vec![process(7, "/opt/game", &[])]);
    let m = rx.try_recv().unwrap();
    assert_eq!(m.socket_id, "g");
    assert_eq!(m.pid, Some(7));
    change_tx.send(DatabaseChange::Touched(vec!["g".to_string()])).unwrap();
    d.scan_cycle(&db, vec![]);
    let cleared = rx.try_recv().unwrap();
    assert!(cleared.activity.is_none());
    d.scan_with(ChangeSignal::Closed, &db, vec![process(8, "/opt/game", &[])]);
    assert_eq!(rx.try_recv().unwrap().pid, Some(8));
}
