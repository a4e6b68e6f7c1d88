use arrus::error::ArrusError;
use arrus::json::Json;
use arrus::server::handlers::{
    needs_ms_conversion_at, needs_ms_conversion_given, process_activity, process_activity_at, process_activity_given,
};
use arrus::server::protocol::{validate_activity_field, validate_button_url, ValidationFailure};
use arrus::server::types::{
    Activity, Button, RpcCommand, RpcEvent, RpcEventType, RpcMessage, RpcRequest, SetActivityArgs,
    SocketConnection, Timestamps, TransportType,
};
use arrus::server::RpcServer;
use tokio::sync::mpsc::{unbounded_channel, UnboundedReceiver};

fn connect(server: &mut RpcServer, client_id: &str) -> UnboundedReceiver<RpcMessage> {
    let (tx, rx) = unbounded_channel();
    assert!(server.hdl_conn(SocketConnection {
        socket_id: 0,
        client_id: client_id.to_string(),
        transport_type: TransportType::WebSocket,
        sender: tx,
    }));
    rx
}

fn request(cmd: RpcCommand, nonce: &str) -> RpcRequest {
    RpcRequest { cmd, args: None, nonce: Some(nonce.to_string()) }
}

#[test]
fn a_new_socket_is_greeted_with_ready() {
    let (etx, mut events) = unbounded_channel();
    let mut server = RpcServer::new(etx);
    let mut rx = connect(&mut server, "123");
    assert_eq!(server.connections_accepted(), 1);
    let ready = rx.try_recv().unwrap();
    assert_eq!(ready.cmd, RpcCommand::DISPATCH);
    assert_eq!(ready.evt, Some(RpcEventType::READY));
    assert!(ready.nonce.is_none());
    let data = ready.data.unwrap();
    assert_eq!(data.get("v").and_then(|v| v.as_u64()), Some(1));
    assert!(data.get("config").is_some());
    assert!(data.get("user").is_some());
    match events.try_recv().unwrap() {
        RpcEvent::Connection { socket_id, socket_info } => {
            assert_eq!(socket_id, 1);
            assert_eq!(socket_info.client_id, "123");
            assert_eq!(socket_info.last_pid, None);
        }
        _ => panic!("expected a connection event"),
    }
}

#[test]
fn connections_callback_is_answered_with_code_1000() {
    let (etx, mut events) = unbounded_channel();
    let mut server = RpcServer::new(etx);
    let mut rx = connect(&mut server, "1");
    rx.try_recv().unwrap();
    events.try_recv().unwrap();
    assert!(server.hdl_msg(1, request(RpcCommand::CONNECTIONS_CALLBACK, "n1"), None).is_ok());
    assert!(matches!(events.try_recv().unwrap(), RpcEvent::Message { socket_id: 1, .. }));
    let reply = rx.try_recv().unwrap();
    assert_eq!(reply.cmd, RpcCommand::CONNECTIONS_CALLBACK);
    assert_eq!(reply.evt, Some(RpcEventType::ERROR));
    assert_eq!(reply.nonce.as_deref(), Some("n1"));
    assert_eq!(reply.data.unwrap().get("code").and_then(|c| c.as_u64()), Some(1000));
}

#[test]
fn unknown_sockets_are_refused() {
    let (etx, _events) = unbounded_channel();
    let mut server = RpcServer::new(etx);
    assert!(matches!(
        server.process_command(9, request(RpcCommand::SET_ACTIVITY, "x"), None),
        Err(ArrusError::SocketNotFound(9))
    ));
}

#[test]
fn clearing_an_activity_answers_without_data() {
    let (etx, mut events) = unbounded_channel();
    let mut server = RpcServer::new(etx);
    let mut rx = connect(&mut server, "55");
    rx.try_recv().unwrap();
    events.try_recv().unwrap();
    let args = SetActivityArgs { activity: None, pid: Some(77) };
    assert!(server.hdl_msg(1, request(RpcCommand::SET_ACTIVITY, "n"), Some(Ok(args))).is_ok());
    events.try_recv().unwrap();
    let reply = rx.try_recv().unwrap();
    assert_eq!(reply.cmd, RpcCommand::SET_ACTIVITY);
    assert!(reply.data.is_none());
    match events.try_recv().unwrap() {
        RpcEvent::Activity { activity, pid, socket_id } => {
            assert!(activity.is_none());
            assert_eq!(pid, Some(77));
            assert_eq!(socket_id, "1");
        }
        _ => panic!("expected an activity event"),
    }
    server.hdl_close(1);
    match events.try_recv().unwrap() {
        RpcEvent::Activity { activity, pid, .. } => {
            assert!(activity.is_none());
            assert_eq!(pid, Some(77));
        }
        _ => panic!("expected a clearing event"),
    }
    assert!(matches!(events.try_recv().unwrap(), RpcEvent::Disconnection { socket_id: 1 }));
    server.hdl_close(1);
    assert!(events.try_recv().is_err());
}

#[test]
fn setting_an_activity_answers_with_the_client_id() {
    let (etx, mut events) = unbounded_channel();
    let mut server = RpcServer::new(etx);
    let mut rx = connect(&mut server, "99");
    rx.try_recv().unwrap();
    events.try_recv().unwrap();
    let mut activity = Activity::default();
    activity.name = Some("Chess".to_string());
    let args = SetActivityArgs { activity: Some(activity), pid: None };
    assert!(server.hdl_msg(1, request(RpcCommand::SET_ACTIVITY, "k"), Some(Ok(args))).is_ok());
    let reply = rx.try_recv().unwrap();
    let data = reply.data.unwrap();
    assert_eq!(data.get("application_id").and_then(|v| v.as_str()), Some("99"));
    assert_eq!(data.get("name").and_then(|v| v.as_str()), Some(""));
    assert_eq!(data.get("type").and_then(|v| v.as_u64()), Some(0));
    events.try_recv().unwrap();
    match events.try_recv().unwrap() {
        RpcEvent::Activity { activity, .. } => {
            let p = (*activity).unwrap();
            assert_eq!(p.application_id, "99");
            assert_eq!(p.name, "Chess");
            assert_eq!(p.flags, 0);
        }
        _ => panic!("expected an activity event"),
    }
}

#[test]
fn bad_arguments_are_reported() {
    let (etx, _events) = unbounded_channel();
    let mut server = RpcServer::new(etx);
    let _rx = connect(&mut server, "1");
    let r = server.hdl_msg(1, request(RpcCommand::SET_ACTIVITY, "n"), Some(Err(ArrusError::MissingArgs)));
    assert!(matches!(r, Err(ArrusError::MissingArgs)));
}

#[test]
fn command_names() {
    assert_eq!(RpcCommand::SET_ACTIVITY.name(), "SET_ACTIVITY");
    assert_eq!(RpcCommand::from_name("set_activity"), Some(RpcCommand::SET_ACTIVITY));
    assert_eq!(RpcCommand::from_name("nope"), None);
    assert_eq!(RpcEventType::READY.name(), "READY");
}

#[test]
fn seconds_become_milliseconds() {
    let now: u128 = 1_700_000_000_000;
    assert!(needs_ms_conversion_at(1_700_000_000, now));
    assert!(!needs_ms_conversion_at(1_700_000_000_000, now));
    let mut a = Activity::default();
    a.timestamps = Some(Timestamps { start: Some(1_700_000_000), end: Some(1_700_000_000_500) });
    a.instance = Some(true);
    a.buttons = Some(vec![Button { label: "Site".to_string(), url: "https://x.y".to_string() }]);
    let p = process_activity_at(a, "7", now);
    let ts = p.timestamps.unwrap();
    assert_eq!(ts.start, Some(1_700_000_000_000));
    assert_eq!(ts.end, Some(1_700_000_000_500));
    assert_eq!(p.flags, 1);
    assert_eq!(p.buttons, Some(vec!["Site".to_string()]));
    assert_eq!(p.metadata.button_urls, Some(vec!["https://x.y".to_string()]));
    assert_eq!(p.application_id, "7");
}

#[test]
fn field_limits_and_button_urls() {
    assert!(validate_activity_field("abc", 3, "details").is_ok());
    match validate_activity_field("abcd", 3, "details") {
        Err(f) => assert_eq!(f.message(), "details exceeds maximum length of 3"),
        Ok(()) => panic!("accepted"),
    }
    assert!(validate_button_url("http://a").is_ok());
    assert!(validate_button_url("https://a").is_ok());
    assert!(matches!(validate_button_url("ftp://a"), Err(ValidationFailure::NotHttpUrl)));
    assert_eq!(ValidationFailure::NotHttpUrl.message(), "Button URL must start with http:// or https://");
}

#[test]
fn json_lookups() {
    let j = Json::object(vec![Json::member("a", Json::unsigned(5)), Json::member("b", Json::text("x"))]);
    assert_eq!(j.get("a").and_then(|v| v.as_u64()), Some(5));
    assert_eq!(j.get("b").and_then(|v| v.as_str()), Some("x"));
    assert!(j.get("c").is_none());
}

#[test]
fn a_reply_to_a_gone_client_is_a_send_error() {
    let (etx, _events) = unbounded_channel();
    let mut server = RpcServer::new(etx);
    let rx = connect(&mut server, "1");
    drop(rx);
    assert!(matches!(
        server.hdl_msg(1, request(RpcCommand::CONNECTIONS_CALLBACK, "n"), None),
        Err(ArrusError::SendError)
    ));
}

#[test]
fn conversion_needs_a_clock_reading_with_enough_digits() {
    let now: u128 = 1_700_000_000_000;
    assert_eq!(needs_ms_conversion_given(1_700_000_000, Some(now)), Some(true));
    assert_eq!(needs_ms_conversion_given(1_700_000_000_000, Some(now)), Some(false));
    assert_eq!(needs_ms_conversion_given(17_000_000_000_000, Some(now)), Some(false));
    assert_eq!(needs_ms_conversion_given(u64::MAX, Some(1_640_000_000_000)), Some(false));
    assert!(!needs_ms_conversion_at(u64::MAX, 1_640_000_000_000));
    assert_eq!(needs_ms_conversion_given(5, None), None);
}

#[test]
fn an_activity_without_timestamps_needs_no_clock() {
    let mut a = Activity::default();
    a.name = Some("Go".to_string());
    let p = process_activity_given(a, "3", None).unwrap();
    assert_eq!(p.name, "Go");
    assert_eq!(p.application_id, "3");
    assert!(p.timestamps.is_none());
    let mut b = Activity::default();
    b.name = Some("Go".to_string());
    assert_eq!(process_activity(b, "3").unwrap().name, "Go");
}

#[test]
fn timestamps_need_a_reading_that_can_handle_them() {
    let mut a = Activity::default();
    a.timestamps = Some(Timestamps { start: Some(1_700_000_000), end: None });
    assert!(process_activity_given(a, "3", None).is_none());
    let mut b = Activity::default();
    b.timestamps = Some(Timestamps { start: Some(99_999_999_999_999), end: None });
    let q = process_activity_given(b, "3", Some(1_700_000_000_000)).unwrap();
    assert_eq!(q.timestamps.unwrap().start, Some(99_999_999_999_999));
    let mut e = Activity::default();
    e.timestamps = Some(Timestamps { start: Some(100_000_000_000_000_000), end: None });
    assert!(process_activity_given(e, "3", Some(1_000_000_000_000_000_000_000)).is_none());
    let mut f = Activity::default();
    f.timestamps = Some(Timestamps { start: None, end: None });
    assert!(process_activity_given(f, "3", None).is_some());
    let mut c = Activity::default();
    c.timestamps = Some(Timestamps { start: Some(1_700_000_000), end: None });
    let p = process_activity_given(c, "3", Some(1_700_000_000_000)).unwrap();
    assert_eq!(p.timestamps.unwrap().start, Some(1_700_000_000_000));
}

fn timed_args(start: u64) -> SetActivityArgs {
    let mut a = Activity::default();
    a.timestamps = Some(Timestamps { start: Some(start), end: None });
    SetActivityArgs { activity: Some(a), pid: Some(5) }
}

#[test]
fn set_activity_without_a_clock_reading_is_refused() {
    let (etx, mut events) = unbounded_channel();
    let mut server = RpcServer::new(etx);
    let mut rx = connect(&mut server, "8");
    rx.try_recv().unwrap();
    events.try_recv().unwrap();
    let r = server.process_command_at(1, request(RpcCommand::SET_ACTIVITY, "a"), Some(Ok(timed_args(1_700_000_000))), None);
    assert!(matches!(r, Err(ArrusError::Io(m)) if m == "system clock unavailable"));
    assert!(rx.try_recv().is_err());
    assert!(events.try_recv().is_err());
}

#[test]
fn set_activity_with_timestamps_out_of_range_is_refused() {
    let (etx, mut events) = unbounded_channel();
    let mut server = RpcServer::new(etx);
    let mut rx = connect(&mut server, "8");
    rx.try_recv().unwrap();
    events.try_recv().unwrap();
    let r = server.process_command_at(
        1,
        request(RpcCommand::SET_ACTIVITY, "a"),
        Some(Ok(timed_args(100_000_000_000_000_000))),
        Some(1_000_000_000_000_000_000_000),
    );
    assert!(matches!(r, Err(ArrusError::Io(m)) if m == "activity timestamp out of range"));
    assert!(rx.try_recv().is_err());
    assert!(events.try_recv().is_err());
}

#[test]
fn set_activity_with_a_reading_answers_and_emits() {
    let (etx, mut events) = unbounded_channel();
    let mut server = RpcServer::new(etx);
    let mut rx = connect(&mut server, "8");
    rx.try_recv().unwrap();
    events.try_recv().unwrap();
    let r = server.process_command_at(
        1,
        request(RpcCommand::SET_ACTIVITY, "a"),
        Some(Ok(timed_args(1_700_000_000))),
        Some(1_700_000_000_000),
    );
    assert!(r.is_ok());
    let reply = rx.try_recv().unwrap();
    assert_eq!(reply.nonce.as_deref(), Some("a"));
    assert_eq!(reply.data.unwrap().get("application_id").and_then(|v| v.as_str()), Some("8"));
    match events.try_recv().unwrap() {
        RpcEvent::Activity { activity, pid, socket_id } => {
            assert_eq!(pid, Some(5));
            assert_eq!(socket_id, "1");
            assert_eq!((*activity).unwrap().timestamps.unwrap().start, Some(1_700_000_000_000));
        }
        _ => panic!("expected an activity event"),
    }
}

#[test]
fn a_socket_whose_greeting_cannot_be_delivered_is_not_recorded() {
    let (etx, mut events) = unbounded_channel();
    let mut server = RpcServer::new(etx);
    let (tx, rx) = unbounded_channel();
    drop(rx);
    let delivered = server.hdl_conn(SocketConnection {
        socket_id: 0,
        client_id: "4".to_string(),
        transport_type: TransportType::Ipc,
        sender: tx,
    });
    assert!(!delivered);
    assert_eq!(server.connections_accepted(), 1);
    assert!(events.try_recv().is_err());
    assert!(matches!(
        server.process_command(1, request(RpcCommand::CONNECTIONS_CALLBACK, "z"), None),
        Err(ArrusError::SocketNotFound(1))
    ));
}
