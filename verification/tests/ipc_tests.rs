use arrus::transports::ipc::read_header;
use arrus::error::ArrusError;
use arrus::json::Json;
use arrus::transports::ipc::{
    answers_probe, ping_probe, HandshakeParams, IpcConfig, IpcPacket, IpcPacketType, IpcSession, SessionStep,
};

fn config() -> IpcConfig {
    IpcConfig::from_environment(Some("/run/user/1000".to_string()), None, None, None, false)
}

fn handshake(v: u64, client_id: Option<&str>) -> Json {
    let mut fields = vec![Json::member("v", Json::unsigned(v))];
    if let Some(id) = client_id {
        fields.push(Json::member("client_id", Json::text(id)));
    }
    Json::object(fields)
}

#[test]
fn encode_writes_little_endian_header_then_payload() {
    let packet = IpcPacket { packet_type: IpcPacketType::Frame, data: b"{}".to_vec() };
    assert_eq!(packet.encode(), vec![1, 0, 0, 0, 2, 0, 0, 0, b'{', b'}']);
}

#[test]
fn decode_reads_back_what_encode_wrote() {
    let packet = IpcPacket { packet_type: IpcPacketType::Close, data: b"{\"code\":1000}".to_vec() };
    let mut bytes = packet.encode();
    bytes.extend_from_slice(b"trailing");
    let back = IpcPacket::decode(&bytes).unwrap();
    assert_eq!(back.packet_type, IpcPacketType::Close);
    assert_eq!(back.data, b"{\"code\":1000}".to_vec());
}

#[test]
fn decode_refuses_short_and_unknown_packets() {
    assert!(matches!(IpcPacket::decode(&[0, 0, 0]), Err(ArrusError::InsufficientData)));
    assert!(matches!(IpcPacket::decode(&[9, 0, 0, 0, 0, 0, 0, 0]), Err(ArrusError::InvalidPacketType(9))));
    assert!(matches!(IpcPacket::decode(&[1, 0, 0, 0, 5, 0, 0, 0, 1]), Err(ArrusError::InsufficientData)));
}

#[test]
fn packet_type_numbers() {
    assert_eq!(IpcPacketType::Pong.code(), 4);
    assert!(matches!(IpcPacketType::try_from(3u32), Ok(IpcPacketType::Ping)));
    assert!(matches!(IpcPacketType::try_from(5u32), Err(ArrusError::InvalidPacketType(5))));
}

#[test]
fn socket_paths_follow_the_runtime_directory() {
    let c = config();
    assert_eq!(c.socket_base_path, "/run/user/1000/discord-ipc");
    let paths = c.candidate_paths();
    assert_eq!(paths.len(), 10);
    assert_eq!(paths[0], "/run/user/1000/discord-ipc-0");
    assert_eq!(paths[9], "/run/user/1000/discord-ipc-9");
    let fallback = IpcConfig::from_environment(None, None, Some("/var/tmp".to_string()), None, true);
    assert_eq!(fallback.socket_base_path, "/var/tmp/discord-ipc");
    let default = IpcConfig::from_environment(None, None, None, None, false);
    assert_eq!(default.socket_path(3), "/tmp/discord-ipc-3");
}

#[test]
fn handshake_parameters_are_read_and_checked() {
    let p = HandshakeParams::from_json(&handshake(1, Some("123"))).unwrap();
    assert_eq!(p.version, 1);
    assert_eq!(p.client_id, "123");
    assert!(p.validate(&config()).is_ok());
    assert!(matches!(HandshakeParams::from_json(&handshake(300, Some("1"))), Err(ArrusError::InvalidVersion(300))));
    assert!(matches!(HandshakeParams::from_json(&Json::object(vec![])), Err(ArrusError::MissingField(f)) if f == "v"));
    let unsupported = HandshakeParams::from_json(&handshake(2, Some("1"))).unwrap();
    assert!(matches!(unsupported.validate(&config()), Err(ArrusError::UnsupportedVersion(2))));
    let anonymous = HandshakeParams::from_json(&handshake(1, None)).unwrap();
    assert!(matches!(anonymous.validate(&config()), Err(ArrusError::MissingClientId)));
}

#[test]
fn session_needs_one_handshake_before_frames() {
    let c = config();
    let mut s = IpcSession::new(4);
    assert_eq!(s.socket_id(), 4);
    assert!(!s.is_handshook());
    assert!(matches!(
        s.on_packet(IpcPacketType::Frame, &Json::Null, &c),
        SessionStep::Fail(ArrusError::Io(m)) if m == "Need to handshake first"
    ));
    assert!(matches!(s.on_packet(IpcPacketType::Pong, &Json::Null, &c), SessionStep::Ignore));
    match s.on_packet(IpcPacketType::Handshake, &handshake(1, Some("42")), &c) {
        SessionStep::Register(p) => assert_eq!(p.client_id, "42"),
        _ => panic!("handshake refused"),
    }
    assert!(s.is_handshook());
    assert!(matches!(s.on_packet(IpcPacketType::Frame, &Json::Null, &c), SessionStep::Forward));
    assert!(matches!(
        s.on_packet(IpcPacketType::Handshake, &handshake(1, Some("42")), &c),
        SessionStep::Fail(ArrusError::Io(m)) if m == "Already handshook"
    ));
    assert!(matches!(s.on_packet(IpcPacketType::Close, &Json::Null, &c), SessionStep::Finish));
}

fn close_fields(close: &Json) -> (String, String) {
    match close {
        Json::Object(fields) => {
            assert_eq!(fields.len(), 2);
            assert_eq!(fields[0].0, "code");
            assert_eq!(fields[1].0, "message");
            let code = match &fields[0].1 {
                Json::Number(t) => t.clone(),
                _ => panic!("code is no number"),
            };
            let message = match &fields[1].1 {
                Json::Str(t) => t.clone(),
                _ => panic!("message is no string"),
            };
            (code, message)
        }
        _ => panic!("close data is no object"),
    }
}

#[test]
fn bad_handshake_fails_the_session() {
    let c = config();
    let mut s = IpcSession::new(1);
    match s.on_packet(IpcPacketType::Handshake, &handshake(2, Some("123456789")), &c) {
        SessionStep::Reject(close, ArrusError::UnsupportedVersion(2)) => {
            let (code, message) = close_fields(&close);
            assert_eq!(code, "4004");
            assert_eq!(message, "Unsupported version: 2");
        }
        _ => panic!("unsupported version not refused with a close"),
    }
    assert!(!s.is_handshook());
}

#[test]
fn anonymous_handshake_is_refused_with_a_close() {
    let c = config();
    let mut s = IpcSession::new(1);
    match s.on_packet(IpcPacketType::Handshake, &handshake(1, None), &c) {
        SessionStep::Reject(close, ArrusError::MissingClientId) => {
            let (code, message) = close_fields(&close);
            assert_eq!(code, "4000");
            assert_eq!(message, "Missing client_id");
        }
        _ => panic!("missing client id not refused with a close"),
    }
    assert!(!s.is_handshook());
}

#[test]
fn ping_is_answered_with_a_pong_of_the_same_data() {
    let c = config();
    let mut s = IpcSession::new(3);
    match s.on_packet(IpcPacketType::Ping, &Json::Number("12345".to_string()), &c) {
        SessionStep::Pong(Json::Number(t)) => assert_eq!(t, "12345"),
        _ => panic!("ping not answered"),
    }
    assert!(!s.is_handshook());
}

#[test]
fn probe_is_a_ping_with_the_number() {
    let p = ping_probe(1234);
    assert_eq!(p.packet_type, IpcPacketType::Ping);
    assert_eq!(p.data, b"1234".to_vec());
    let echo = Json::Number("1234".to_string());
    assert!(answers_probe(1234, IpcPacketType::Pong, Some(&echo)));
    assert!(!answers_probe(1234, IpcPacketType::Frame, Some(&echo)));
    assert!(!answers_probe(1235, IpcPacketType::Pong, Some(&echo)));
    assert!(!answers_probe(1234, IpcPacketType::Pong, None));
}

#[test]
fn headers_announce_type_and_length() {
    let packet = IpcPacket { packet_type: IpcPacketType::Handshake, data: vec![b'x'; 300] };
    let bytes = packet.encode();
    assert!(matches!(read_header(&bytes[..8]), Ok((IpcPacketType::Handshake, 300))));
    assert!(matches!(read_header(&[1, 2, 3]), Err(ArrusError::InsufficientData)));
    assert!(matches!(read_header(&[7, 0, 0, 0, 0, 0, 0, 0]), Err(ArrusError::InvalidPacketType(7))));
}
