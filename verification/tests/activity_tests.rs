use arrus::activity::types::{ActiveGame, ActivityData, ActivityMessage};
use arrus::activity::{sightings_of, ActiveGames, ActivityManager, Sighting};
use arrus::database::GameEntry;

fn sighting(id: &str, name: &str, pid: u32) -> Sighting {
    Sighting { id: id.to_string(), name: name.to_string(), pid }
}

fn start_of(m: &ActivityMessage) -> Option<u64> {
    m.activity.as_ref().and_then(|a| a.timestamps.as_ref()).and_then(|t| t.start)
}

#[test]
fn a_new_game_starts_now_and_is_shown() {
    let mut games = ActiveGames::new();
    let out = games.apply_scan(&vec![sighting("g1", "Game One", 10)], 1000);
    assert_eq!(games.len(), 1);
    assert_eq!(out.len(), 1);
    assert_eq!(out[0].socket_id, "g1");
    assert_eq!(out[0].pid, Some(10));
    let a = out[0].activity.as_ref().unwrap();
    assert_eq!(a.application_id, "g1");
    assert_eq!(a.name, "Game One");
    assert_eq!(a.activity_type, 0);
    assert_eq!(start_of(&out[0]), Some(1000));
}

#[test]
fn a_running_game_keeps_its_start_and_is_shown_again() {
    let mut games = ActiveGames::new();
    games.apply_scan(&vec![sighting("g1", "Game One", 10)], 1000);
    let out = games.apply_scan(&vec![sighting("g1", "Game One", 11)], 5000);
    assert_eq!(out.len(), 1);
    assert_eq!(out[0].pid, Some(11));
    assert_eq!(start_of(&out[0]), Some(1000));
    assert_eq!(games.len(), 1);
}

#[test]
fn a_stopped_game_is_cleared_with_its_pid() {
    let mut games = ActiveGames::new();
    games.apply_scan(&vec![sighting("g1", "Game One", 10), sighting("g2", "Two", 20)], 1000);
    let out = games.apply_scan(&vec![sighting("g2", "Two", 20)], 2000);
    assert_eq!(out.len(), 2);
    assert_eq!(out[0].socket_id, "g2");
    assert!(out[0].has_activity());
    assert_eq!(out[1].socket_id, "g1");
    assert!(!out[1].has_activity());
    assert_eq!(out[1].pid, Some(10));
    assert_eq!(games.len(), 1);
}

#[test]
fn a_game_seen_twice_in_one_scan_runs_once() {
    let mut games = ActiveGames::new();
    let out = games.apply_scan(&vec![sighting("g1", "One", 1), sighting("g1", "One", 2)], 7);
    assert_eq!(out.len(), 2);
    assert_eq!(games.len(), 1);
}

#[test]
fn messages_from_active_games() {
    let g = ActiveGame { game_id: "x".to_string(), game_name: "X".to_string(), pid: 3, start_timestamp: 42 };
    let data = ActivityData::from(&g);
    assert_eq!(data.application_id, "x");
    assert!(data.details.is_none());
    let shown = ActivityMessage::active(&g, Some(4));
    assert_eq!(shown.pid, Some(4));
    assert_eq!(start_of(&shown), Some(42));
    let cleared = ActivityMessage::clear(g);
    assert_eq!(cleared.socket_id, "x");
    assert_eq!(cleared.pid, Some(3));
    assert!(cleared.activity.is_none());
}

#[test]
fn manager_sends_what_the_scan_gives() {
    let (tx, mut rx) = tokio::sync::mpsc::unbounded_channel();
    let mut manager = ActivityManager::new(tx);
    let game = GameEntry { id: "g".to_string(), name: "G".to_string(), executables: vec![] };
    manager.update_detected_games(vec![(&game, 5)]);
    assert_eq!(manager.len(), 1);
    let m = rx.try_recv().unwrap();
    assert_eq!(m.socket_id, "g");
    assert_eq!(m.pid, Some(5));
    manager.update_detected_games(vec![]);
    assert_eq!(manager.len(), 0);
    let _again = rx.try_recv().unwrap();
    assert!(rx.try_recv().is_err());
}

#[test]
fn sightings_from_detections() {
    let a = GameEntry { id: "a".to_string(), name: "A".to_string(), executables: vec![] };
    let s = sightings_of(&vec![(&a, 9)]);
    assert_eq!(s.len(), 1);
    assert_eq!(s[0].id, "a");
    assert_eq!(s[0].pid, 9);
}
