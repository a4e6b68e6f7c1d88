use arrus::activity::types::{ActiveGame, ActivityMessage};
use arrus::bridge::{BridgeConfig, BridgeServer, LastMessages};

fn shown(id: &str, start: u64) -> ActivityMessage {
    let g = ActiveGame { game_id: id.to_string(), game_name: id.to_uppercase(), pid: 1, start_timestamp: start };
    ActivityMessage::active(&g, Some(1))
}

fn cleared(id: &str) -> ActivityMessage {
    ActivityMessage { socket_id: id.to_string(), activity: None, pid: Some(1) }
}

#[test]
fn the_last_message_of_a_socket_is_kept() {
    let mut last = LastMessages::new();
    assert_eq!(last.len(), 0);
    last.record(shown("a", 1));
    last.record(shown("b", 2));
    last.record(shown("a", 3));
    assert_eq!(last.len(), 2);
    let a = last.get("a").unwrap();
    assert_eq!(a.activity.as_ref().unwrap().timestamps.as_ref().unwrap().start, Some(3));
    assert!(last.get("c").is_none());
}

#[test]
fn catch_up_skips_cleared_sockets() {
    let mut last = LastMessages::new();
    last.record(shown("a", 1));
    last.record(shown("b", 2));
    last.record(cleared("a"));
    let sent = last.catch_up();
    assert_eq!(sent.len(), 1);
    assert_eq!(sent[0].socket_id, "b");
}

#[test]
fn bridge_keeps_its_config_and_sends_to_subscribers() {
    let bridge = BridgeServer::new(BridgeConfig { port: 1337, bind_address: "127.0.0.1".to_string() });
    assert_eq!(bridge.get_config().port, 1337);
    assert_eq!(bridge.get_config().bind_address, "127.0.0.1");
    let tx = bridge.get_sender();
    let mut rx = tx.subscribe();
    tx.send(shown("z", 9)).ok().unwrap();
    assert_eq!(rx.try_recv().unwrap().socket_id, "z");
}
