//! The Discord IPC transport: its binary packet framing, the handshake, and
//! the rules a connection follows packet by packet. Sockets, reading and
//! writing, and turning payload bytes into JSON are left to the program
//! around the library.
use vstd::prelude::*;
use crate::error::ArrusError;
use crate::json::{json_get, json_str, json_u64, json_view, Json, JsonView};
use crate::text::{append_chars, chars_of, decimal, decimal_chars, push_str, string_from_chars};

verus! {

/// The packet types of the IPC protocol.
#[derive(Clone, Copy, PartialEq, Eq, Structural, Debug)]
pub enum IpcPacketType {
    Handshake,
    Frame,
    Close,
    Ping,
    Pong,
}

/// The number a packet type is sent as.
pub open spec fn packet_code(t: IpcPacketType) -> u32 {
    match t {
        IpcPacketType::Handshake => 0,
        IpcPacketType::Frame => 1,
        IpcPacketType::Close => 2,
        IpcPacketType::Ping => 3,
        IpcPacketType::Pong => 4,
    }
}

/// The packet type a number stands for.
pub open spec fn packet_type_of(v: u32) -> Option<IpcPacketType> {
    if v == 0 {
        Some(IpcPacketType::Handshake)
    } else if v == 1 {
        Some(IpcPacketType::Frame)
    } else if v == 2 {
        Some(IpcPacketType::Close)
    } else if v == 3 {
        Some(IpcPacketType::Ping)
    } else if v == 4 {
        Some(IpcPacketType::Pong)
    } else {
        None
    }
}

impl IpcPacketType {
    /// The number the packet type is sent as.
    pub fn code(self) -> (r: u32)
        ensures
            r == packet_code(self),
    {
        match self {
            IpcPacketType::Handshake => 0,
            IpcPacketType::Frame => 1,
            IpcPacketType::Close => 2,
            IpcPacketType::Ping => 3,
            IpcPacketType::Pong => 4,
        }
    }
}

impl TryFrom<u32> for IpcPacketType {
    type Error = ArrusError;

    fn try_from(value: u32) -> (r: Result<Self, ArrusError>) {
        if value == 0 {
            Ok(IpcPacketType::Handshake)
        } else if value == 1 {
            Ok(IpcPacketType::Frame)
        } else if value == 2 {
            Ok(IpcPacketType::Close)
        } else if value == 3 {
            Ok(IpcPacketType::Ping)
        } else if value == 4 {
            Ok(IpcPacketType::Pong)
        } else {
            Err(ArrusError::InvalidPacketType(value))
        }
    }
}

impl vstd::std_specs::convert::TryFromSpecImpl<u32> for IpcPacketType {
    open spec fn obeys_try_from_spec() -> bool {
        true
    }

    open spec fn try_from_spec(value: u32) -> Result<Self, ArrusError> {
        match packet_type_of(value) {
            Some(t) => Ok(t),
            None => Err(ArrusError::InvalidPacketType(value)),
        }
    }
}

/// The four bytes of `v`, least significant first.
pub open spec fn le_bytes(v: u32) -> Seq<u8> {
    seq![(v % 256) as u8, ((v / 256) % 256) as u8, ((v / 65536) % 256) as u8, (v / 16777216) as u8]
}

/// The number four bytes stand for, least significant first.
pub open spec fn le_value(b: Seq<u8>) -> int {
    b[0] + 256 * b[1] + 65536 * b[2] + 16777216 * b[3]
}

/// A packet on the wire: its type and the payload's length, each as four
/// little-endian bytes, then the payload.
pub open spec fn frame(t: IpcPacketType, payload: Seq<u8>) -> Seq<u8> {
    le_bytes(packet_code(t)) + le_bytes(payload.len() as u32) + payload
}

/// What reading a packet from the start of `buf` gives: its type and
/// payload, or why there is none.
pub open spec fn decoded(buf: Seq<u8>) -> Result<(IpcPacketType, Seq<u8>), ArrusError> {
    if buf.len() < 8 {
        Err(ArrusError::InsufficientData)
    } else {
        let code = le_value(buf.subrange(0, 4));
        let size = le_value(buf.subrange(4, 8));
        match packet_type_of(code as u32) {
            None => Err(ArrusError::InvalidPacketType(code as u32)),
            Some(t) => if buf.len() - 8 < size {
                Err(ArrusError::InsufficientData)
            } else {
                Ok((t, buf.subrange(8, 8 + size)))
            },
        }
    }
}

proof fn lemma_le_round_trip(v: u32)
    ensures
        le_value(le_bytes(v)) == v,
        le_bytes(v).len() == 4,
{
    let b = le_bytes(v);
    assert(b[0] == v % 256);
    assert(b[1] == (v / 256) % 256);
    assert(b[2] == (v / 65536) % 256);
    assert(b[3] == v / 16777216);
    assert(v % 256 + 256 * ((v / 256) % 256) + 65536 * ((v / 65536) % 256) + 16777216 * (v / 16777216) == v)
        by (nonlinear_arith);
}

proof fn lemma_le_value_bound(b: Seq<u8>)
    requires
        b.len() == 4,
    ensures
        0 <= le_value(b) <= u32::MAX,
{
    let (x0, x1, x2, x3) = (b[0], b[1], b[2], b[3]);
    assert(0 <= x0 + 256 * x1 + 65536 * x2 + 16777216 * x3 <= 4294967295) by (nonlinear_arith)
        requires
            x0 <= 255,
            x1 <= 255,
            x2 <= 255,
            x3 <= 255,
    ;
}

/// Reading back a packet that was written gives the same type and payload.
pub proof fn law_frame_round_trip(t: IpcPacketType, payload: Seq<u8>)
    requires
        payload.len() <= u32::MAX,
    ensures
        decoded(frame(t, payload)) == Ok::<(IpcPacketType, Seq<u8>), ArrusError>((t, payload)),
{
    let f = frame(t, payload);
    lemma_le_round_trip(packet_code(t));
    lemma_le_round_trip(payload.len() as u32);
    assert(f.subrange(0, 4) =~= le_bytes(packet_code(t)));
    assert(f.subrange(4, 8) =~= le_bytes(payload.len() as u32));
    assert(f.subrange(8, (8 + payload.len()) as int) =~= payload);
}

/// A packet that was read is written back as exactly the bytes it was read
/// from.
pub proof fn law_decoded_packet_rewrites_its_bytes(buf: Seq<u8>)
    requires
        decoded(buf) is Ok,
    ensures
        ({
            let (t, payload) = decoded(buf)->Ok_0;
            frame(t, payload) == buf.subrange(0, (8 + payload.len()) as int)
        }),
{
    let (t, payload) = decoded(buf)->Ok_0;
    let code = le_value(buf.subrange(0, 4));
    let size = le_value(buf.subrange(4, 8));
    lemma_le_value_bound(buf.subrange(0, 4));
    lemma_le_value_bound(buf.subrange(4, 8));
    lemma_le_bytes_of_value(buf.subrange(0, 4));
    lemma_le_bytes_of_value(buf.subrange(4, 8));
    assert(packet_code(t) == code);
    assert(payload.len() == size);
    assert(frame(t, payload) =~= buf.subrange(0, (8 + payload.len()) as int));
}

proof fn lemma_le_bytes_of_value(b: Seq<u8>)
    requires
        b.len() == 4,
    ensures
        le_bytes(le_value(b) as u32) =~= b,
{
    lemma_le_value_bound(b);
    let v = le_value(b) as u32;
    let (x0, x1, x2, x3) = (b[0] as int, b[1] as int, b[2] as int, b[3] as int);
    assert(v == x0 + 256 * x1 + 65536 * x2 + 16777216 * x3);
    assert(v % 256 == x0 && (v / 256) % 256 == x1 && (v / 65536) % 256 == x2 && v / 16777216 == x3)
        by (nonlinear_arith)
        requires
            0 <= x0 <= 255,
            0 <= x1 <= 255,
            0 <= x2 <= 255,
            0 <= x3 <= 255,
            v == x0 + 256 * x1 + 65536 * x2 + 16777216 * x3,
    ;
}

/// Appends the four little-endian bytes of `v`.
fn push_le_u32(out: &mut Vec<u8>, v: u32)
    ensures
        final(out)@ == old(out)@ + le_bytes(v),
{
    out.push((v % 256) as u8);
    out.push(((v / 256) % 256) as u8);
    out.push(((v / 65536) % 256) as u8);
    out.push((v / 16777216) as u8);
    assert(final(out)@ =~= old(out)@ + le_bytes(v));
}

/// The number four bytes stand for, least significant first.
fn read_le_u32(b: &[u8], at: usize) -> (r: u32)
    requires
        at + 4 <= b@.len(),
    ensures
        r == le_value(b@.subrange(at as int, at + 4)),
{
    proof { lemma_le_value_bound(b@.subrange(at as int, at + 4)); }
    let x0 = b[at] as u32;
    let x1 = b[at + 1] as u32;
    let x2 = b[at + 2] as u32;
    let x3 = b[at + 3] as u32;
    x0 + 256 * x1 + 65536 * x2 + 16777216 * x3
}

/// What the eight header bytes at the start of `buf` announce: the packet
/// type and the payload's length.
pub open spec fn header_of(buf: Seq<u8>) -> Result<(IpcPacketType, u32), ArrusError> {
    if buf.len() < 8 {
        Err(ArrusError::InsufficientData)
    } else {
        let code = le_value(buf.subrange(0, 4));
        match packet_type_of(code as u32) {
            None => Err(ArrusError::InvalidPacketType(code as u32)),
            Some(t) => Ok((t, le_value(buf.subrange(4, 8)) as u32)),
        }
    }
}

/// Reads a packet header: the type and the length of the payload that
/// follows (see `header_of`).
pub fn read_header(header: &[u8]) -> (r: Result<(IpcPacketType, u32), ArrusError>)
    ensures
        r == header_of(header@),
{
    if header.len() < 8 {
        return Err(ArrusError::InsufficientData);
    }
    let code = read_le_u32(header, 0);
    let packet_type = match IpcPacketType::try_from(code) {
        Ok(t) => t,
        Err(e) => return Err(e),
    };
    let size = read_le_u32(header, 4);
    Ok((packet_type, size))
}

/// A header read back from a written packet gives its type and length.
pub proof fn law_header_of_frame(t: IpcPacketType, payload: Seq<u8>)
    requires
        payload.len() <= u32::MAX,
    ensures
        header_of(frame(t, payload)) == Ok::<(IpcPacketType, u32), ArrusError>((t, payload.len() as u32)),
{
    law_frame_round_trip(t, payload);
    let f = frame(t, payload);
    lemma_le_round_trip(packet_code(t));
    lemma_le_round_trip(payload.len() as u32);
    assert(f.subrange(0, 4) =~= le_bytes(packet_code(t)));
    assert(f.subrange(4, 8) =~= le_bytes(payload.len() as u32));
}

/// A packet: its type and its payload, the JSON text of its data.
pub struct IpcPacket {
    pub packet_type: IpcPacketType,
    pub data: Vec<u8>,
}

impl IpcPacket {
    /// The packet on the wire (see `frame`).
    pub fn encode(&self) -> (r: Vec<u8>)
        requires
            self.data@.len() <= u32::MAX,
        ensures
            r@ == frame(self.packet_type, self.data@),
    {
        let mut buffer: Vec<u8> = Vec::new();
        push_le_u32(&mut buffer, self.packet_type.code());
        push_le_u32(&mut buffer, self.data.len() as u32);
        let n = self.data.len();
        let ghost head = buffer@;
        for i in 0..n
            invariant
                n == self.data@.len(),
                buffer@ == head + self.data@.take(i as int),
        {
            buffer.push(self.data[i]);
            assert(self.data@.take(i + 1) =~= self.data@.take(i as int).push(self.data@[i as int]));
        }
        assert(self.data@.take(n as int) =~= self.data@);
        buffer
    }

    /// Reads a packet from the start of `buffer` (see `decoded`); bytes
    /// after the packet are left alone.
    pub fn decode(buffer: &[u8]) -> (r: Result<IpcPacket, ArrusError>)
        ensures
            match decoded(buffer@) {
                Ok((t, payload)) => r matches Ok(p) && p.packet_type == t && p.data@ == payload,
                Err(e) => r == Err::<IpcPacket, ArrusError>(e),
            },
    {
        if buffer.len() < 8 {
            return Err(ArrusError::InsufficientData);
        }
        let code = read_le_u32(buffer, 0);
        let packet_type = match IpcPacketType::try_from(code) {
            Ok(t) => t,
            Err(e) => return Err(e),
        };
        let size = read_le_u32(buffer, 4);
        if ((buffer.len() - 8) as u64) < (size as u64) {
            return Err(ArrusError::InsufficientData);
        }
        let end = 8 + size as usize;
        let mut data: Vec<u8> = Vec::new();
        for i in 8..end
            invariant
                end <= buffer@.len(),
                data@ == buffer@.subrange(8, i as int),
        {
            data.push(buffer[i]);
            assert(buffer@.subrange(8, i + 1) =~= buffer@.subrange(8, i as int).push(buffer@[i as int]));
        }
        Ok(IpcPacket { packet_type, data })
    }
}

/// Close codes of the IPC protocol.
pub struct IpcCloseCode;

impl IpcCloseCode {
    pub const CLOSE_NORMAL: u32 = 1000;
    pub const CLOSE_UNSUPPORTED: u32 = 1003;
    pub const CLOSE_ABNORMAL: u32 = 1006;
}

/// Error codes of the IPC protocol.
pub struct IpcErrorCode;

impl IpcErrorCode {
    pub const INVALID_CLIENTID: u32 = 4000;
    pub const INVALID_ORIGIN: u32 = 4001;
    pub const RATELIMITED: u32 = 4002;
    pub const TOKEN_REVOKED: u32 = 4003;
    pub const INVALID_VERSION: u32 = 4004;
    pub const INVALID_ENCODING: u32 = 4005;
}

/// How the IPC server finds its socket and which handshakes it accepts.
pub struct IpcConfig {
    pub socket_base_path: String,
    pub max_socket_tries: u8,
    pub debug_mode: bool,
    pub supported_versions: Vec<u8>,
    pub connection_timeout_ms: u64,
    pub ping_timeout_ms: u64,
}

/// The directory the socket goes in: the first of the runtime, `TMPDIR`,
/// `TMP` and `TEMP` directories that is set, else `/tmp`.
pub open spec fn socket_dir(runtime: Option<String>, tmpdir: Option<String>, tmp: Option<String>, temp: Option<String>) -> Seq<char> {
    match runtime {
        Some(d) => d@,
        None => match tmpdir {
            Some(d) => d@,
            None => match tmp {
                Some(d) => d@,
                None => match temp {
                    Some(d) => d@,
                    None => "/tmp"@,
                },
            },
        },
    }
}

/// The socket path tried at an attempt: the base path, a hyphen, and the
/// attempt's number.
pub open spec fn socket_path_at(base: Seq<char>, attempt: nat) -> Seq<char> {
    base + "-"@ + decimal(attempt)
}

impl IpcConfig {
    /// The configuration for the given environment: the socket base path is
    /// `discord-ipc` in the socket directory, ten paths are tried, version 1
    /// is spoken, a connection may take 5 s and a ping 1 s.
    pub fn from_environment(
        runtime_dir: Option<String>,
        tmpdir: Option<String>,
        tmp: Option<String>,
        temp: Option<String>,
        debug_mode: bool,
    ) -> (r: Self)
        ensures
            r.socket_base_path@ == socket_dir(runtime_dir, tmpdir, tmp, temp) + "/discord-ipc"@,
            r.max_socket_tries == 10,
            r.debug_mode == debug_mode,
            r.supported_versions@ == seq![1u8],
            r.connection_timeout_ms == 5000,
            r.ping_timeout_ms == 1000,
    {
        let ghost dir = socket_dir(runtime_dir, tmpdir, tmp, temp);
        let mut base = match runtime_dir {
            Some(d) => d,
            None => match tmpdir {
                Some(d) => d,
                None => match tmp {
                    Some(d) => d,
                    None => match temp {
                        Some(d) => d,
                        None => string_from_chars(chars_of("/tmp").as_slice()),
                    },
                },
            },
        };
        proof { reveal_strlit("/tmp"); }
        assert(base@ == dir);
        push_str(&mut base, "/discord-ipc");
        let mut versions: Vec<u8> = Vec::new();
        versions.push(1);
        assert(versions@ =~= seq![1u8]);
        IpcConfig {
            socket_base_path: base,
            max_socket_tries: 10,
            debug_mode,
            supported_versions: versions,
            connection_timeout_ms: 5000,
            ping_timeout_ms: 1000,
        }
    }

    /// The socket path tried at the given attempt.
    pub fn socket_path(&self, attempt: u8) -> (r: String)
        ensures
            r@ == socket_path_at(self.socket_base_path@, attempt as nat),
    {
        let mut path = string_from_chars(chars_of(self.socket_base_path.as_str()).as_slice());
        push_str(&mut path, "-");
        let digits = decimal_chars(attempt as u128);
        let tail = string_from_chars(digits.as_slice());
        push_str(&mut path, tail.as_str());
        path
    }

    /// The socket paths to try, in order: one per attempt.
    pub fn candidate_paths(&self) -> (r: Vec<String>)
        ensures
            r@.len() == self.max_socket_tries,
            forall|i: int| 0 <= i < r@.len() ==> #[trigger] r@[i]@ == socket_path_at(self.socket_base_path@, i as nat),
    {
        let mut r: Vec<String> = Vec::new();
        let n = self.max_socket_tries;
        for attempt in 0..n
            invariant
                n == self.max_socket_tries,
                r@.len() == attempt,
                forall|i: int| 0 <= i < r@.len() ==> #[trigger] r@[i]@ == socket_path_at(self.socket_base_path@, i as nat),
        {
            r.push(self.socket_path(attempt));
        }
        r
    }
}

/// The parameters of a handshake packet.
pub struct HandshakeParams {
    pub version: u8,
    pub client_id: String,
}

/// What a handshake payload holds.
pub enum HandshakeReading {
    /// No number of at most 64 bits under `v`.
    MissingVersion,
    /// A version above 255.
    VersionTooLarge(u64),
    /// The version, and the client id under `client_id` (empty when absent
    /// or no string).
    Read(u8, Seq<char>),
}

/// What a handshake payload gives.
pub open spec fn handshake_of(data: Json) -> HandshakeReading {
    let v = match json_get(data, "v"@) {
        Some(x) => json_u64(x),
        None => None,
    };
    let id = match json_get(data, "client_id"@) {
        Some(x) => match json_str(x) {
            Some(s) => s,
            None => Seq::empty(),
        },
        None => Seq::empty(),
    };
    match v {
        None => HandshakeReading::MissingVersion,
        Some(n) => if n > 255 {
            HandshakeReading::VersionTooLarge(n)
        } else {
            HandshakeReading::Read(n as u8, id)
        },
    }
}

impl HandshakeParams {
    /// Reads the handshake parameters from a handshake payload.
    pub fn from_json(data: &Json) -> (r: Result<Self, ArrusError>)
        ensures
            match handshake_of(*data) {
                HandshakeReading::Read(v, id) => r matches Ok(p) && p.version == v && p.client_id@ == id,
                HandshakeReading::VersionTooLarge(n) => r == Err::<HandshakeParams, ArrusError>(ArrusError::InvalidVersion(n)),
                HandshakeReading::MissingVersion => r matches Err(ArrusError::MissingField(f)) && f@ == "v"@,
            },
    {
        proof {
            reveal_strlit("v");
            reveal_strlit("client_id");
        }
        let version = match data.get("v") {
            Some(x) => x.as_u64(),
            None => None,
        };
        let version = match version {
            Some(v) => v,
            None => return Err(ArrusError::MissingField(string_from_chars(chars_of("v").as_slice()))),
        };
        if version > 255 {
            return Err(ArrusError::InvalidVersion(version));
        }
        let client_id = match data.get("client_id") {
            Some(x) => match x.as_str() {
                Some(s) => string_from_chars(chars_of(s).as_slice()),
                None => String::new(),
            },
            None => String::new(),
        };
        Ok(HandshakeParams { version: version as u8, client_id })
    }

    /// Accepts a handshake whose version the server speaks and that names a
    /// client.
    pub fn validate(&self, config: &IpcConfig) -> (r: Result<(), ArrusError>)
        ensures
            !config.supported_versions@.contains(self.version)
                ==> r == Err::<(), ArrusError>(ArrusError::UnsupportedVersion(self.version)),
            config.supported_versions@.contains(self.version) && self.client_id@.len() == 0
                ==> r == Err::<(), ArrusError>(ArrusError::MissingClientId),
            config.supported_versions@.contains(self.version) && self.client_id@.len() > 0 ==> r is Ok,
    {
        let mut supported = false;
        let n = config.supported_versions.len();
        for i in 0..n
            invariant
                n == config.supported_versions@.len(),
                supported == exists|k: int| 0 <= k < i && config.supported_versions@[k] == self.version,
        {
            if config.supported_versions[i] == self.version {
                supported = true;
            }
        }
        if !supported {
            return Err(ArrusError::UnsupportedVersion(self.version));
        }
        if self.client_id.as_str().is_empty() {
            return Err(ArrusError::MissingClientId);
        }
        Ok(())
    }
}

/// The payload of a Close packet: `{"code": code, "message": message}`.
pub open spec fn close_payload(code: u32, message: Seq<char>) -> JsonView {
    JsonView::Object(seq![("code"@, JsonView::Number(decimal(code as nat))), ("message"@, JsonView::Str(message))])
}

/// The text of the rejection of a handshake whose version is not spoken.
pub open spec fn unsupported_version_text(v: u8) -> Seq<char> {
    "Unsupported version: "@ + decimal(v as nat)
}

/// The payload of a Close packet with the code and the message.
pub fn close_data(code: u32, message: &str) -> (r: Json)
    ensures
        json_view(r) == close_payload(code, message@),
{
    let mut fields: Vec<(String, Json)> = Vec::new();
    fields.push(Json::member("code", Json::unsigned(code as u64)));
    fields.push(Json::member("message", Json::text(message)));
    let ghost fv = fields@;
    let r = Json::object(fields);
    proof {
        reveal_strlit("code");
        reveal_strlit("message");
        assert(json_view(r)->Object_0[0] == (fv[0].0@, json_view(fv[0].1)));
        assert(json_view(r)->Object_0[1] == (fv[1].0@, json_view(fv[1].1)));
        assert(json_view(r)->Object_0 =~= close_payload(code, message@)->Object_0);
    }
    r
}

/// What a connection does with a packet it read.
pub enum SessionStep {
    /// Nothing: a pong.
    Ignore,
    /// Answer a ping: write a Pong packet with this data, the ping's.
    Pong(Json),
    /// Refuse a handshake: write a Close packet with this data, then end
    /// the connection with the error.
    Reject(Json, ArrusError),
    /// A valid first handshake: the client is registered with these
    /// parameters.
    Register(HandshakeParams),
    /// A frame after the handshake: its payload goes to the RPC server.
    Forward,
    /// The client closed the connection.
    Finish,
    /// The connection ends with this error.
    Fail(ArrusError),
}

/// The kind of a step, without its data.
pub enum StepKind {
    Ignore,
    Pong,
    Reject,
    Register,
    Forward,
    Finish,
    Fail,
}

pub open spec fn kind_of(s: SessionStep) -> StepKind {
    match s {
        SessionStep::Ignore => StepKind::Ignore,
        SessionStep::Pong(_) => StepKind::Pong,
        SessionStep::Reject(_, _) => StepKind::Reject,
        SessionStep::Register(_) => StepKind::Register,
        SessionStep::Forward => StepKind::Forward,
        SessionStep::Finish => StepKind::Finish,
        SessionStep::Fail(_) => StepKind::Fail,
    }
}

/// The handshake is accepted: it reads, its version is spoken, and it names
/// a client.
pub open spec fn handshake_accepted(data: Json, versions: Seq<u8>) -> bool {
    match handshake_of(data) {
        HandshakeReading::Read(v, id) => versions.contains(v) && id.len() > 0,
        _ => false,
    }
}

/// What a connection does with a packet, given whether it has handshaken.
pub open spec fn step_kind(handshook: bool, t: IpcPacketType, data: Json, versions: Seq<u8>) -> StepKind {
    match t {
        IpcPacketType::Ping => StepKind::Pong,
        IpcPacketType::Pong => StepKind::Ignore,
        IpcPacketType::Close => StepKind::Finish,
        IpcPacketType::Handshake => if !handshook && handshake_accepted(data, versions) {
            StepKind::Register
        } else if !handshook && handshake_of(data) is Read {
            StepKind::Reject
        } else {
            StepKind::Fail
        },
        IpcPacketType::Frame => if handshook {
            StepKind::Forward
        } else {
            StepKind::Fail
        },
    }
}

/// Whether the connection has handshaken after the packets, starting from
/// `handshook`, and the kind of each step in order.
pub open spec fn session_run(handshook: bool, packets: Seq<(IpcPacketType, Json)>, versions: Seq<u8>) -> (bool, Seq<StepKind>)
    decreases packets.len(),
{
    if packets.len() == 0 {
        (handshook, Seq::empty())
    } else {
        let (h, ks) = session_run(handshook, packets.drop_last(), versions);
        let k = step_kind(h, packets.last().0, packets.last().1, versions);
        (h || k == StepKind::Register, ks.push(k))
    }
}

/// Some step registered a client.
pub open spec fn registered(ks: Seq<StepKind>) -> bool {
    exists|j: int| 0 <= j < ks.len() && ks[j] == StepKind::Register
}

proof fn lemma_session_run_state(packets: Seq<(IpcPacketType, Json)>, versions: Seq<u8>)
    ensures
        session_run(false, packets, versions).1.len() == packets.len(),
        session_run(false, packets, versions).0 == registered(session_run(false, packets, versions).1),
    decreases packets.len(),
{
    if packets.len() > 0 {
        let d = packets.drop_last();
        lemma_session_run_state(d, versions);
        let (h, ks) = session_run(false, d, versions);
        let k = step_kind(h, packets.last().0, packets.last().1, versions);
        let ks2 = ks.push(k);
        assert(session_run(false, packets, versions).1 == ks2);
        if h {
            let j = choose|j: int| 0 <= j < ks.len() && ks[j] == StepKind::Register;
            assert(ks2[j] == StepKind::Register);
        }
        if k == StepKind::Register {
            assert(ks2[ks.len() as int] == StepKind::Register);
        }
        if registered(ks2) {
            let j = choose|j: int| 0 <= j < ks2.len() && ks2[j] == StepKind::Register;
            if j < ks.len() {
                assert(ks[j] == StepKind::Register);
            }
        }
    } else {
        assert(!registered(Seq::<StepKind>::empty()));
    }
}

proof fn lemma_session_run_forward(packets: Seq<(IpcPacketType, Json)>, versions: Seq<u8>)
    ensures
        forall|k: int| 0 <= k < packets.len() && #[trigger] session_run(false, packets, versions).1[k] == StepKind::Forward
            ==> registered(session_run(false, packets, versions).1.take(k)),
    decreases packets.len(),
{
    if packets.len() > 0 {
        let d = packets.drop_last();
        lemma_session_run_forward(d, versions);
        lemma_session_run_state(d, versions);
        let (h, ks) = session_run(false, d, versions);
        let k = step_kind(h, packets.last().0, packets.last().1, versions);
        let ks2 = ks.push(k);
        assert(session_run(false, packets, versions).1 == ks2);
        assert forall|x: int| 0 <= x < packets.len() && #[trigger] ks2[x] == StepKind::Forward
            implies registered(ks2.take(x)) by {
            if x == ks.len() {
                assert(ks2.take(x) =~= ks);
            } else {
                assert(ks2[x] == ks[x]);
                assert(ks2.take(x) =~= ks.take(x));
            }
        }
    }
}

proof fn lemma_session_run_once(packets: Seq<(IpcPacketType, Json)>, versions: Seq<u8>)
    ensures
        forall|k: int| 0 <= k < packets.len() && #[trigger] session_run(false, packets, versions).1[k] == StepKind::Register
            ==> !registered(session_run(false, packets, versions).1.take(k)),
    decreases packets.len(),
{
    if packets.len() > 0 {
        let d = packets.drop_last();
        lemma_session_run_once(d, versions);
        lemma_session_run_state(d, versions);
        let (h, ks) = session_run(false, d, versions);
        let k = step_kind(h, packets.last().0, packets.last().1, versions);
        let ks2 = ks.push(k);
        assert(session_run(false, packets, versions).1 == ks2);
        assert forall|x: int| 0 <= x < packets.len() && #[trigger] ks2[x] == StepKind::Register
            implies !registered(ks2.take(x)) by {
            if x == ks.len() {
                assert(ks2.take(x) =~= ks);
            } else {
                assert(ks2[x] == ks[x]);
                assert(ks2.take(x) =~= ks.take(x));
            }
        }
    }
}

/// On a connection that starts without a handshake, a frame is forwarded
/// only after a handshake was accepted, and a handshake is accepted at
/// most once.
pub proof fn law_frames_follow_one_handshake(packets: Seq<(IpcPacketType, Json)>, versions: Seq<u8>)
    ensures
        forall|k: int| 0 <= k < packets.len() && #[trigger] session_run(false, packets, versions).1[k] == StepKind::Forward
            ==> registered(session_run(false, packets, versions).1.take(k)),
        forall|k: int| 0 <= k < packets.len() && #[trigger] session_run(false, packets, versions).1[k] == StepKind::Register
            ==> !registered(session_run(false, packets, versions).1.take(k)),
{
    lemma_session_run_forward(packets, versions);
    lemma_session_run_once(packets, versions);
}

/// The state of one IPC connection: its id and whether it has handshaken.
pub struct IpcSession {
    socket_id: u32,
    handshook: bool,
}

impl IpcSession {
    /// The connection's id.
    pub closed spec fn id(&self) -> u32 {
        self.socket_id
    }

    /// The connection's id.
    pub fn socket_id(&self) -> (r: u32)
        ensures
            r == self.id(),
    {
        self.socket_id
    }

    /// Whether the connection has handshaken.
    pub closed spec fn handshook(&self) -> bool {
        self.handshook
    }

    /// A new connection, not yet handshaken.
    pub fn new(socket_id: u32) -> (r: Self)
        ensures
            r.id() == socket_id,
            !r.handshook(),
    {
        IpcSession { socket_id, handshook: false }
    }

    /// Whether the connection has handshaken.
    pub fn is_handshook(&self) -> (r: bool)
        ensures
            r == self.handshook(),
    {
        self.handshook
    }

    /// Decides what to do with a packet: a ping is answered with a pong of
    /// the same data, a pong is ignored, a close ends the connection, the
    /// first handshake registers the client when it is valid and is refused
    /// with a Close packet when its version is not spoken or it names no
    /// client, frames are forwarded once handshaken; anything else fails
    /// the connection.
    pub fn on_packet(&mut self, packet_type: IpcPacketType, data: &Json, config: &IpcConfig) -> (r: SessionStep)
        ensures
            kind_of(r) == step_kind(old(self).handshook(), packet_type, *data, config.supported_versions@),
            final(self).handshook() == (old(self).handshook() || kind_of(r) == StepKind::Register),
            final(self).id() == old(self).id(),
            packet_type == IpcPacketType::Ping ==> (r matches SessionStep::Pong(d) && json_view(d) == json_view(*data)),
            r matches SessionStep::Register(p) ==> handshake_of(*data) == HandshakeReading::Read(p.version, p.client_id@),
            packet_type == IpcPacketType::Handshake && old(self).handshook()
                ==> (r matches SessionStep::Fail(ArrusError::Io(m)) && m@ == "Already handshook"@),
            packet_type == IpcPacketType::Frame && !old(self).handshook()
                ==> (r matches SessionStep::Fail(ArrusError::Io(m)) && m@ == "Need to handshake first"@),
            packet_type == IpcPacketType::Handshake && !old(self).handshook() ==> match handshake_of(*data) {
                HandshakeReading::MissingVersion => (r matches SessionStep::Fail(ArrusError::MissingField(f)) && f@ == "v"@),
                HandshakeReading::VersionTooLarge(n) => (r matches SessionStep::Fail(ArrusError::InvalidVersion(m)) && m == n),
                HandshakeReading::Read(v, id) => if !config.supported_versions@.contains(v) {
                    (r matches SessionStep::Reject(c, ArrusError::UnsupportedVersion(w)) && w == v
                        && json_view(c) == close_payload(4004, unsupported_version_text(v)))
                } else if id.len() == 0 {
                    (r matches SessionStep::Reject(c, ArrusError::MissingClientId)
                        && json_view(c) == close_payload(4000, "Missing client_id"@))
                } else {
                    r is Register
                },
            },
    {
        proof {
            reveal_strlit("Already handshook");
            reveal_strlit("Need to handshake first");
        }
        match packet_type {
            IpcPacketType::Ping => SessionStep::Pong(data.copy()),
            IpcPacketType::Pong => SessionStep::Ignore,
            IpcPacketType::Close => SessionStep::Finish,
            IpcPacketType::Handshake => {
                if self.handshook {
                    return SessionStep::Fail(ArrusError::Io(string_from_chars(chars_of("Already handshook").as_slice())));
                }
                let params = match HandshakeParams::from_json(data) {
                    Ok(p) => p,
                    Err(e) => return SessionStep::Fail(e),
                };
                match params.validate(config) {
                    Ok(()) => {
                        self.handshook = true;
                        SessionStep::Register(params)
                    },
                    Err(ArrusError::UnsupportedVersion(v)) => {
                        let mut text = chars_of("Unsupported version: ");
                        let digits = decimal_chars(v as u128);
                        append_chars(&mut text, digits.as_slice());
                        let message = string_from_chars(text.as_slice());
                        proof {
                            reveal_strlit("Unsupported version: ");
                        }
                        SessionStep::Reject(close_data(IpcErrorCode::INVALID_VERSION, message.as_str()), ArrusError::UnsupportedVersion(v))
                    },
                    Err(ArrusError::MissingClientId) => {
                        proof {
                            reveal_strlit("Missing client_id");
                        }
                        SessionStep::Reject(close_data(IpcErrorCode::INVALID_CLIENTID, "Missing client_id"), ArrusError::MissingClientId)
                    },
                    Err(e) => SessionStep::Fail(e),
                }
            },
            IpcPacketType::Frame => {
                if !self.handshook {
                    return SessionStep::Fail(ArrusError::Io(string_from_chars(chars_of("Need to handshake first").as_slice())));
                }
                SessionStep::Forward
            },
        }
    }
}

/// The bytes of an ASCII text.
pub open spec fn ascii_bytes(s: Seq<char>) -> Seq<u8> {
    Seq::new(s.len(), |i: int| s[i] as u8)
}

/// The ping that asks whether a socket is served by a Discord client: its
/// payload is the JSON number `unique_id`.
pub fn ping_probe(unique_id: u32) -> (r: IpcPacket)
    ensures
        r.packet_type == IpcPacketType::Ping,
        r.data@ == ascii_bytes(decimal(unique_id as nat)),
{
    let digits = decimal_chars(unique_id as u128);
    let mut data: Vec<u8> = Vec::new();
    let n = digits.len();
    for i in 0..n
        invariant
            n == digits@.len(),
            data@ == ascii_bytes(digits@.take(i as int)),
    {
        let c = digits[i];
        data.push(c as u8);
        assert(data@ =~= ascii_bytes(digits@.take(i + 1)));
    }
    assert(digits@.take(n as int) =~= digits@);
    IpcPacket { packet_type: IpcPacketType::Ping, data }
}

/// Whether the answer to the ping with `unique_id` shows a Discord client
/// at the socket: a pong whose data is that same number.
pub fn answers_probe(unique_id: u32, reply_type: IpcPacketType, reply: Option<&Json>) -> (r: bool)
    ensures
        r == (reply_type == IpcPacketType::Pong && match reply {
            Some(j) => json_u64(*j) == Some(unique_id as u64),
            None => false,
        }),
{
    if reply_type != IpcPacketType::Pong {
        return false;
    }
    match reply {
        Some(j) => match j.as_u64() {
            Some(v) => v == unique_id as u64,
            None => false,
        },
        None => false,
    }
}

/// A client that echoes the ping back as a pong is recognized.
pub proof fn law_echoed_ping_is_recognized(unique_id: u32, echo: String)
    requires
        echo@ == decimal(unique_id as nat),
    ensures
        json_u64(Json::Number(echo)) == Some(unique_id as u64),
{
    crate::text::lemma_decimal_reads_back(unique_id as nat);
}

} // verus!
