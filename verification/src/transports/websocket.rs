//! The WebSocket transport: which ports it tries, which connections it
//! admits, and what it does with each incoming WebSocket message. The HTTP
//! server and the sockets are left to the program around the library.
use vstd::prelude::*;
use crate::text::{chars_of, decimal, decimal_chars, push_str, str_eq, string_from_chars, string_views};

verus! {

/// The ports tried, first to last.
pub const PORT_RANGE_START: u16 = 6463;
pub const PORT_RANGE_END: u16 = 6472;

/// Which ports to try, where to bind, and which connections to admit.
pub struct WebSocketConfig {
    pub port_range: (u16, u16),
    pub bind_address: String,
    pub debug_mode: bool,
    pub allowed_origins: Vec<String>,
    pub supported_versions: Vec<u8>,
    pub supported_encodings: Vec<String>,
}

impl WebSocketConfig {
    /// The standard configuration: ports 6463 to 6472 on 127.0.0.1, the
    /// Discord web origins, version 1, JSON encoding.
    pub fn standard(debug_mode: bool) -> (r: Self)
        ensures
            r.port_range == (PORT_RANGE_START, PORT_RANGE_END),
            r.bind_address@ == "127.0.0.1"@,
            r.debug_mode == debug_mode,
            string_views(r.allowed_origins@) == seq![
                "https://discord.com"@, "https://ptb.discord.com"@, "https://canary.discord.com"@,
            ],
            r.supported_versions@ == seq![1u8],
            string_views(r.supported_encodings@) == seq!["json"@],
    {
        let mut origins: Vec<String> = Vec::new();
        origins.push(string_from_chars(chars_of("https://discord.com").as_slice()));
        origins.push(string_from_chars(chars_of("https://ptb.discord.com").as_slice()));
        origins.push(string_from_chars(chars_of("https://canary.discord.com").as_slice()));
        assert(string_views(origins@) =~= seq![
            "https://discord.com"@, "https://ptb.discord.com"@, "https://canary.discord.com"@,
        ]);
        let mut versions: Vec<u8> = Vec::new();
        versions.push(1);
        assert(versions@ =~= seq![1u8]);
        let mut encodings: Vec<String> = Vec::new();
        encodings.push(default_encoding());
        assert(string_views(encodings@) =~= seq!["json"@]);
        WebSocketConfig {
            port_range: (PORT_RANGE_START, PORT_RANGE_END),
            bind_address: string_from_chars(chars_of("127.0.0.1").as_slice()),
            debug_mode,
            allowed_origins: origins,
            supported_versions: versions,
            supported_encodings: encodings,
        }
    }
}

/// The query parameters of a connection.
pub struct ConnectionParams {
    pub v: u8,
    pub encoding: String,
    pub client_id: String,
}

/// The version assumed when a connection names none.
pub fn default_version() -> (r: u8)
    ensures
        r == 1,
{
    1
}

/// The encoding assumed when a connection names none.
pub fn default_encoding() -> (r: String)
    ensures
        r@ == "json"@,
{
    string_from_chars(chars_of("json").as_slice())
}

/// Why a connection is refused.
pub enum ValidationError {
    UnsupportedVersion(u8),
    UnsupportedEncoding(String),
    DisallowedOrigin(String),
}

/// Whether the text is one of the strings.
fn contains_text(list: &Vec<String>, s: &str) -> (r: bool)
    ensures
        r == string_views(list@).contains(s@),
{
    let n = list.len();
    for i in 0..n
        invariant
            n == list@.len(),
            forall|k: int| 0 <= k < i ==> list@[k]@ != s@,
    {
        if str_eq(list[i].as_str(), s) {
            assert(string_views(list@)[i as int] == s@);
            return true;
        }
    }
    assert forall|k: int| 0 <= k < string_views(list@).len() implies string_views(list@)[k] != s@ by {
        assert(string_views(list@)[k] == list@[k]@);
    }
    false
}

impl ConnectionParams {
    /// Accepts a connection whose version and encoding the server speaks.
    pub fn validate(&self, config: &WebSocketConfig) -> (r: Result<(), ValidationError>)
        ensures
            !config.supported_versions@.contains(self.v)
                ==> (r matches Err(ValidationError::UnsupportedVersion(v)) && v == self.v),
            config.supported_versions@.contains(self.v) && !string_views(config.supported_encodings@).contains(self.encoding@)
                ==> (r matches Err(ValidationError::UnsupportedEncoding(e)) && e@ == self.encoding@),
            config.supported_versions@.contains(self.v) && string_views(config.supported_encodings@).contains(self.encoding@)
                ==> r is Ok,
    {
        let mut supported = false;
        let n = config.supported_versions.len();
        for i in 0..n
            invariant
                n == config.supported_versions@.len(),
                supported == exists|k: int| 0 <= k < i && config.supported_versions@[k] == self.v,
        {
            if config.supported_versions[i] == self.v {
                supported = true;
            }
        }
        if !supported {
            return Err(ValidationError::UnsupportedVersion(self.v));
        }
        if !contains_text(&config.supported_encodings, self.encoding.as_str()) {
            return Err(ValidationError::UnsupportedEncoding(self.encoding.clone()));
        }
        Ok(())
    }
}

/// A status for a refused connection: 400 for bad parameters, 403 for an
/// origin that is not allowed.
pub const BAD_REQUEST: u16 = 400;
pub const FORBIDDEN: u16 = 403;

/// The connection is admitted: its parameters validate, and its origin, if
/// it sent a readable one that is not empty, is allowed.
pub open spec fn admitted(params_ok: bool, origin: Option<Seq<char>>, allowed: Seq<Seq<char>>) -> Result<(), u16> {
    if !params_ok {
        Err(BAD_REQUEST)
    } else {
        match origin {
            Some(o) => if o.len() > 0 && !allowed.contains(o) {
                Err(FORBIDDEN)
            } else {
                Ok(())
            },
            None => Ok(()),
        }
    }
}

/// Decides whether to admit a connection, from its parameters and the
/// origin header (when present and readable as text).
pub fn admission(params: &ConnectionParams, origin: Option<&str>, config: &WebSocketConfig) -> (r: Result<(), u16>)
    ensures
        r == admitted(
            params.validate_spec(config),
            match origin {
                Some(o) => Some(o@),
                None => None,
            },
            string_views(config.allowed_origins@),
        ),
{
    if params.validate(config).is_err() {
        return Err(BAD_REQUEST);
    }
    match origin {
        Some(o) => {
            if !o.is_empty() && !contains_text(&config.allowed_origins, o) {
                Err(FORBIDDEN)
            } else {
                Ok(())
            }
        },
        None => Ok(()),
    }
}

impl ConnectionParams {
    /// The parameters validate.
    pub open spec fn validate_spec(&self, config: &WebSocketConfig) -> bool {
        config.supported_versions@.contains(self.v) && string_views(config.supported_encodings@).contains(self.encoding@)
    }
}

/// A WebSocket message as received, by kind.
pub enum Inbound {
    Text(String),
    Binary,
    Close,
    Ping,
    Pong,
    Failed,
}

/// What the reading side does with a received message.
pub enum InboundAction {
    /// Hand the text to the RPC server as a request.
    Deliver(String),
    /// Nothing; keep reading.
    Skip,
    /// Stop reading: the connection is over.
    Stop,
}

/// Texts are delivered; binary messages, pings and pongs are skipped; a
/// close or an error ends the reading.
pub fn on_inbound(message: Inbound) -> (r: InboundAction)
    ensures
        match message {
            Inbound::Text(t) => r == InboundAction::Deliver(t),
            Inbound::Binary | Inbound::Ping | Inbound::Pong => r == InboundAction::Skip,
            Inbound::Close | Inbound::Failed => r == InboundAction::Stop,
        },
{
    match message {
        Inbound::Text(t) => InboundAction::Deliver(t),
        Inbound::Binary => InboundAction::Skip,
        Inbound::Ping => InboundAction::Skip,
        Inbound::Pong => InboundAction::Skip,
        Inbound::Close => InboundAction::Stop,
        Inbound::Failed => InboundAction::Stop,
    }
}

/// The ports of the range, first to last.
pub open spec fn ports_of(range: (u16, u16)) -> Seq<u16> {
    Seq::new(if range.1 >= range.0 { (range.1 - range.0 + 1) as nat } else { 0 }, |i: int| (range.0 + i) as u16)
}

/// The outcome of binding a port.
pub enum BindOutcome {
    Bound,
    InUse,
    Failed(String),
}

/// What the port search does after an attempt.
pub enum PortStep {
    /// Serve on this port.
    Serve(u16),
    /// Try the next port.
    Next,
    /// Give up with this message.
    GiveUp(String),
}

/// The WebSocket transport: its configuration and the port it serves on.
pub struct WebSocketTransport {
    config: WebSocketConfig,
    active_port: Option<u16>,
}

impl WebSocketTransport {
    /// The port served on, once one is bound.
    pub closed spec fn port(&self) -> Option<u16> {
        self.active_port
    }

    /// The configuration.
    pub closed spec fn configuration(&self) -> WebSocketConfig {
        self.config
    }

    /// A transport with the standard configuration, serving on no port yet.
    pub fn new(debug_mode: bool) -> (r: Self)
        ensures
            r.port() is None,
            r.configuration().port_range == (PORT_RANGE_START, PORT_RANGE_END),
            r.configuration().bind_address@ == "127.0.0.1"@,
            r.configuration().debug_mode == debug_mode,
            string_views(r.configuration().allowed_origins@) == seq![
                "https://discord.com"@, "https://ptb.discord.com"@, "https://canary.discord.com"@,
            ],
            r.configuration().supported_versions@ == seq![1u8],
            string_views(r.configuration().supported_encodings@) == seq!["json"@],
    {
        WebSocketTransport { config: WebSocketConfig::standard(debug_mode), active_port: None }
    }

    /// The configuration.
    pub fn config(&self) -> (r: &WebSocketConfig)
        ensures
            *r == self.configuration(),
    {
        &self.config
    }

    /// The ports to try, first to last.
    pub fn ports_to_try(&self) -> (r: Vec<u16>)
        ensures
            r@ == ports_of(self.configuration().port_range),
    {
        let (first, last) = self.config.port_range;
        let mut r: Vec<u16> = Vec::new();
        if last < first {
            assert(r@ =~= ports_of(self.config.port_range));
            return r;
        }
        let n: u32 = (last - first) as u32 + 1;
        for i in 0..n
            invariant
                n == last - first + 1,
                first <= last,
                (first, last) == self.config.port_range,
                r@ == ports_of(self.config.port_range).take(i as int),
        {
            r.push(first + i as u16);
            assert(ports_of(self.config.port_range).take(i + 1)
                =~= ports_of(self.config.port_range).take(i as int).push((first + i) as u16));
        }
        assert(r@ =~= ports_of(self.config.port_range));
        r
    }

    /// The step after trying to bind `port`: serve on it when bound (and
    /// remember it), try the next when it is in use, give up on any other
    /// failure.
    pub fn after_bind(&mut self, port: u16, outcome: BindOutcome) -> (r: PortStep)
        ensures
            match outcome {
                BindOutcome::Bound => r == PortStep::Serve(port) && final(self).port() == Some(port),
                BindOutcome::InUse => r == PortStep::Next && final(self).port() == old(self).port(),
                BindOutcome::Failed(m) => (r matches PortStep::GiveUp(g) && g@ == m@) && final(self).port() == old(self).port(),
            },
            final(self).configuration() == old(self).configuration(),
    {
        match outcome {
            BindOutcome::Bound => {
                self.active_port = Some(port);
                PortStep::Serve(port)
            },
            BindOutcome::InUse => PortStep::Next,
            BindOutcome::Failed(m) => PortStep::GiveUp(m),
        }
    }

    /// The message when every port of the range is in use.
    pub fn no_port_message(&self) -> (r: String)
        ensures
            r@ == "No available ports in range "@ + decimal(self.configuration().port_range.0 as nat) + "-"@
                + decimal(self.configuration().port_range.1 as nat),
    {
        let mut m = string_from_chars(chars_of("No available ports in range ").as_slice());
        let a = string_from_chars(decimal_chars(self.config.port_range.0 as u128).as_slice());
        push_str(&mut m, a.as_str());
        push_str(&mut m, "-");
        let b = string_from_chars(decimal_chars(self.config.port_range.1 as u128).as_slice());
        push_str(&mut m, b.as_str());
        m
    }

    /// The port served on, once one is bound.
    pub fn get_active_port(&self) -> (r: Option<u16>)
        ensures
            r == self.port(),
    {
        self.active_port
    }
}

} // verus!
