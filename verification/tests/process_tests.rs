use arrus::process::activity_manager::ActivityManager;
use arrus::process::database::{ExecutableEntry, GameDatabase, GameEntry};
use arrus::process::detector::ProcessDetector;
use arrus::process::path_processor::PathProcessor;
use arrus::process::scanner::{ProcessInfo, ProcessScanner};
use std::time::Duration;

fn exe(name: &str, os: &str, args: Option<&str>) -> ExecutableEntry {
    ExecutableEntry { name: name.to_string(), os: os.to_string(), is_launcher: false, arguments: args.map(|a| a.to_string()) }
}

fn game(id: &str, executables: Vec<ExecutableEntry>) -> GameEntry {
    GameEntry { id: id.to_string(), name: id.to_uppercase(), executables, aliases: vec![], hook: false, overlay: false }
}

fn process(pid: u32, path: &str, args: &[&str]) -> ProcessInfo {
    ProcessInfo { pid, executable_path: path.to_string(), arguments: args.iter().map(|a| a.to_string()).collect() }
}

#[test]
fn command_lines_split_on_nul() {
    let s = ProcessScanner::new();
    assert_eq!(s.get_proc_path(), "/proc");
    let (exe, args) = s.parse_cmdline("/usr/bin/game\0--fast\0\0level1\0");
    assert_eq!(exe, "/usr/bin/game");
    assert_eq!(args, vec!["--fast".to_string(), "level1".to_string()]);
    let (none, no_args) = s.parse_cmdline("");
    assert_eq!(none, "");
    assert!(no_args.is_empty());
    let (empty_first, rest) = s.parse_cmdline("\0x");
    assert_eq!(empty_first, "");
    assert!(rest.is_empty());
}

#[test]
fn paths_are_normalized_and_split_into_variants() {
    let p = PathProcessor::new();
    assert_eq!(p.normalize_path("C:\\Games\\Foo.EXE"), "c:/games/foo.exe");
    let processed = p.process_path("/home/u/Game/Game_x64.exe");
    assert_eq!(processed.original, "/home/u/Game/Game_x64.exe");
    assert_eq!(processed.normalized, "/home/u/game/game_x64.exe");
    assert_eq!(
        processed.variants,
        vec![
            "game_x64.exe",
            "game/game_x64.exe",
            "u/game/game_x64.exe",
            "home/u/game/game_x64.exe",
            "game_x.exe",
            "game_.exe",
            "game/game_x.exe",
            "game/game_.exe",
            "u/game/game_x.exe",
            "u/game/game_.exe",
            "home/u/game/game_x.exe",
            "home/u/game/game_.exe",
        ]
    );
    assert_eq!(p.generate_variants("a/b"), vec!["b"]);
}

#[test]
fn only_linux_games_match() {
    let db = GameDatabase::from_entries(vec![
        game("win", vec![exe("game.exe", "win32", None)]),
        game("lin", vec![exe("game.exe", "linux", None)]),
        game("java", vec![exe(">java", "linux", Some("-jar mc"))]),
    ]);
    assert_eq!(db.len(), 3);
    assert_eq!(db.linux_len(), 2);
    let p = PathProcessor::new();
    let found = db.find_match(&p.process_path("/opt/Game.exe"), &[]).unwrap();
    assert_eq!(found.id, "lin");
    let java = p.process_path("/usr/bin/java");
    assert_eq!(db.find_match(&java, &["-jar".to_string(), "mc".to_string()]).unwrap().id, "java");
    assert!(db.find_match(&java, &["-jar".to_string(), "other".to_string()]).is_none());
    assert!(db.find_match(&p.process_path("/usr/bin/vim"), &[]).is_none());
}

#[test]
fn a_scan_counts_processes_and_games() {
    let db = GameDatabase::from_entries(vec![game("lin", vec![exe("game", "linux", None)])]);
    let (tx, mut rx) = tokio::sync::mpsc::unbounded_channel();
    let mut detector = ProcessDetector::new(db, tx);
    assert_eq!(detector.scan_interval(), Duration::from_secs(5));
    detector.set_scan_interval(Duration::from_secs(2));
    assert_eq!(detector.scan_interval(), Duration::from_secs(2));
    let stats = detector.scan_cycle(vec![process(1, "/usr/bin/bash", &[]), process(2, "/games/game", &[])]);
    assert_eq!(stats.processes_scanned, 2);
    assert_eq!(stats.games_detected, 1);
    let m = rx.try_recv().unwrap();
    assert_eq!(m.socket_id, "lin");
    assert_eq!(m.pid, Some(2));
    let stats = detector.scan_cycle(vec![]);
    assert_eq!(stats.games_detected, 0);
    let cleared = rx.try_recv().unwrap();
    assert!(cleared.activity.is_none());
}

#[test]
fn manager_tracks_detected_games() {
    let (tx, _rx) = tokio::sync::mpsc::unbounded_channel();
    let mut m = ActivityManager::new(tx);
    let g = game("a", vec![]);
    m.update_detected_games(vec![(&g, 1)]);
    assert_eq!(m.len(), 1);
    m.update_detected_games(vec![]);
    assert_eq!(m.len(), 0);
}
