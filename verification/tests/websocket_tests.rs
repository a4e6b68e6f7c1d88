use arrus::transports::websocket::{
    admission, default_encoding, default_version, on_inbound, BindOutcome, ConnectionParams, Inbound,
    InboundAction, PortStep, ValidationError, WebSocketConfig, WebSocketTransport, BAD_REQUEST, FORBIDDEN,
};

fn params(v: u8, encoding: &str) -> ConnectionParams {
    ConnectionParams { v, encoding: encoding.to_string(), client_id: "1".to_string() }
}

#[test]
fn standard_configuration() {
    let c = WebSocketConfig::standard(false);
    assert_eq!(c.port_range, (6463, 6472));
    assert_eq!(c.bind_address, "127.0.0.1");
    assert_eq!(
        c.allowed_origins,
        vec!["https://discord.com", "https://ptb.discord.com", "https://canary.discord.com"]
    );
    assert_eq!(c.supported_versions, vec![1]);
    assert_eq!(c.supported_encodings, vec!["json"]);
    assert_eq!(default_version(), 1);
    assert_eq!(default_encoding(), "json");
}

#[test]
fn parameters_are_validated() {
    let c = WebSocketConfig::standard(false);
    assert!(params(1, "json").validate(&c).is_ok());
    assert!(matches!(params(2, "json").validate(&c), Err(ValidationError::UnsupportedVersion(2))));
    assert!(matches!(params(1, "etf").validate(&c), Err(ValidationError::UnsupportedEncoding(e)) if e == "etf"));
}

#[test]
fn admission_checks_parameters_then_origin() {
    let c = WebSocketConfig::standard(false);
    assert_eq!(admission(&params(1, "json"), None, &c), Ok(()));
    assert_eq!(admission(&params(1, "json"), Some(""), &c), Ok(()));
    assert_eq!(admission(&params(1, "json"), Some("https://discord.com"), &c), Ok(()));
    assert_eq!(admission(&params(1, "json"), Some("https://evil.example"), &c), Err(FORBIDDEN));
    assert_eq!(admission(&params(3, "json"), Some("https://discord.com"), &c), Err(BAD_REQUEST));
}

#[test]
fn inbound_messages() {
    assert!(matches!(on_inbound(Inbound::Text("{}".to_string())), InboundAction::Deliver(t) if t == "{}"));
    assert!(matches!(on_inbound(Inbound::Binary), InboundAction::Skip));
    assert!(matches!(on_inbound(Inbound::Ping), InboundAction::Skip));
    assert!(matches!(on_inbound(Inbound::Close), InboundAction::Stop));
    assert!(matches!(on_inbound(Inbound::Failed), InboundAction::Stop));
}

#[test]
fn port_search() {
    let mut t = WebSocketTransport::new(false);
    assert_eq!(t.get_active_port(), None);
    assert_eq!(t.ports_to_try(), (6463..=6472).collect::<Vec<u16>>());
    assert!(matches!(t.after_bind(6463, BindOutcome::InUse), PortStep::Next));
    assert_eq!(t.get_active_port(), None);
    assert!(matches!(t.after_bind(6464, BindOutcome::Bound), PortStep::Serve(6464)));
    assert_eq!(t.get_active_port(), Some(6464));
    assert!(matches!(t.after_bind(6465, BindOutcome::Failed("denied".to_string())), PortStep::GiveUp(m) if m == "denied"));
    assert_eq!(t.no_port_message(), "No available ports in range 6463-6472");
    assert!(!t.config().debug_mode);
}
