//! The messages, requests, activities and events of the RPC server.
use vstd::prelude::*;
use crate::error::ArrusError;
use crate::json::Json;
use crate::outside::unbounded_send;
use crate::text::{to_lowercase, str_eq, unicode_lowercase};

verus! {

/// The transport a socket came in on.
#[derive(Clone, Copy, PartialEq, Eq, Structural, Debug)]
pub enum TransportType {
    Ipc,
    WebSocket,
    Process,
}

/// The event types of RPC messages.
#[allow(non_camel_case_types)]
#[derive(Clone, Copy, PartialEq, Eq, Structural, Debug)]
pub enum RpcEventType {
    READY,
    ERROR,
    OTHER,
}

/// The commands of RPC messages and requests.
#[allow(non_camel_case_types)]
#[derive(Clone, Copy, PartialEq, Eq, Structural, Debug)]
pub enum RpcCommand {
    DISPATCH,
    CONNECTIONS_CALLBACK,
    SET_ACTIVITY,
    GUILD_TEMPLATE_BROWSER,
    INVITE_BROWSER,
    DEEP_LINK,
    UNKNOWN,
}

/// The name an event type is written as.
pub open spec fn event_type_name(e: RpcEventType) -> Seq<char> {
    match e {
        RpcEventType::READY => "READY"@,
        RpcEventType::ERROR => "ERROR"@,
        RpcEventType::OTHER => "OTHER"@,
    }
}

/// The event type whose name, lower-cased, is `lower`.
pub open spec fn event_type_named(lower: Seq<char>) -> Option<RpcEventType> {
    if lower == "ready"@ {
        Some(RpcEventType::READY)
    } else if lower == "error"@ {
        Some(RpcEventType::ERROR)
    } else if lower == "other"@ {
        Some(RpcEventType::OTHER)
    } else {
        None
    }
}

/// The name a command is written as.
pub open spec fn command_name(c: RpcCommand) -> Seq<char> {
    match c {
        RpcCommand::DISPATCH => "DISPATCH"@,
        RpcCommand::CONNECTIONS_CALLBACK => "CONNECTIONS_CALLBACK"@,
        RpcCommand::SET_ACTIVITY => "SET_ACTIVITY"@,
        RpcCommand::GUILD_TEMPLATE_BROWSER => "GUILD_TEMPLATE_BROWSER"@,
        RpcCommand::INVITE_BROWSER => "INVITE_BROWSER"@,
        RpcCommand::DEEP_LINK => "DEEP_LINK"@,
        RpcCommand::UNKNOWN => "UNKNOWN"@,
    }
}

/// The command whose name, lower-cased, is `lower`.
pub open spec fn command_named(lower: Seq<char>) -> Option<RpcCommand> {
    if lower == "dispatch"@ {
        Some(RpcCommand::DISPATCH)
    } else if lower == "connections_callback"@ {
        Some(RpcCommand::CONNECTIONS_CALLBACK)
    } else if lower == "set_activity"@ {
        Some(RpcCommand::SET_ACTIVITY)
    } else if lower == "guild_template_browser"@ {
        Some(RpcCommand::GUILD_TEMPLATE_BROWSER)
    } else if lower == "invite_browser"@ {
        Some(RpcCommand::INVITE_BROWSER)
    } else if lower == "deep_link"@ {
        Some(RpcCommand::DEEP_LINK)
    } else if lower == "unknown"@ {
        Some(RpcCommand::UNKNOWN)
    } else {
        None
    }
}

impl RpcEventType {
    /// The name the event type is written as.
    pub fn name(&self) -> (r: &'static str)
        ensures
            r@ == event_type_name(*self),
    {
        match self {
            RpcEventType::READY => "READY",
            RpcEventType::ERROR => "ERROR",
            RpcEventType::OTHER => "OTHER",
        }
    }

    /// The event type named by `s`, in any letter case.
    pub fn from_name(s: &str) -> (r: Option<Self>)
        ensures
            r == event_type_named(unicode_lowercase(s@)),
    {
        let lower = to_lowercase(s);
        proof {
            reveal_strlit("ready");
            reveal_strlit("error");
            reveal_strlit("other");
        }
        if str_eq(lower.as_str(), "ready") {
            Some(RpcEventType::READY)
        } else if str_eq(lower.as_str(), "error") {
            Some(RpcEventType::ERROR)
        } else if str_eq(lower.as_str(), "other") {
            Some(RpcEventType::OTHER)
        } else {
            None
        }
    }
}

impl RpcCommand {
    /// The name the command is written as.
    pub fn name(&self) -> (r: &'static str)
        ensures
            r@ == command_name(*self),
    {
        match self {
            RpcCommand::DISPATCH => "DISPATCH",
            RpcCommand::CONNECTIONS_CALLBACK => "CONNECTIONS_CALLBACK",
            RpcCommand::SET_ACTIVITY => "SET_ACTIVITY",
            RpcCommand::GUILD_TEMPLATE_BROWSER => "GUILD_TEMPLATE_BROWSER",
            RpcCommand::INVITE_BROWSER => "INVITE_BROWSER",
            RpcCommand::DEEP_LINK => "DEEP_LINK",
            RpcCommand::UNKNOWN => "UNKNOWN",
        }
    }

    /// The command named by `s`, in any letter case.
    pub fn from_name(s: &str) -> (r: Option<Self>)
        ensures
            r == command_named(unicode_lowercase(s@)),
    {
        let lower = to_lowercase(s);
        let l = lower.as_str();
        proof {
            reveal_strlit("dispatch");
            reveal_strlit("connections_callback");
            reveal_strlit("set_activity");
            reveal_strlit("guild_template_browser");
            reveal_strlit("invite_browser");
            reveal_strlit("deep_link");
            reveal_strlit("unknown");
        }
        if str_eq(l, "dispatch") {
            Some(RpcCommand::DISPATCH)
        } else if str_eq(l, "connections_callback") {
            Some(RpcCommand::CONNECTIONS_CALLBACK)
        } else if str_eq(l, "set_activity") {
            Some(RpcCommand::SET_ACTIVITY)
        } else if str_eq(l, "guild_template_browser") {
            Some(RpcCommand::GUILD_TEMPLATE_BROWSER)
        } else if str_eq(l, "invite_browser") {
            Some(RpcCommand::INVITE_BROWSER)
        } else if str_eq(l, "deep_link") {
            Some(RpcCommand::DEEP_LINK)
        } else if str_eq(l, "unknown") {
            Some(RpcCommand::UNKNOWN)
        } else {
            None
        }
    }
}

/// An RPC message sent to a client.
pub struct RpcMessage {
    pub cmd: RpcCommand,
    pub data: Option<Json>,
    pub evt: Option<RpcEventType>,
    pub nonce: Option<String>,
}

/// An RPC request received from a client.
pub struct RpcRequest {
    pub cmd: RpcCommand,
    pub args: Option<Json>,
    pub nonce: Option<String>,
}

/// The kinds of activity.
#[derive(Clone, Copy, PartialEq, Eq, Structural, Debug)]
pub enum ActivityType {
    Playing,
    Streaming,
    Listening,
    Watching,
    Custom,
    Competing,
}

/// The number an activity type is sent as.
pub open spec fn activity_type_code(t: ActivityType) -> u8 {
    match t {
        ActivityType::Playing => 0,
        ActivityType::Streaming => 1,
        ActivityType::Listening => 2,
        ActivityType::Watching => 3,
        ActivityType::Custom => 4,
        ActivityType::Competing => 5,
    }
}

/// The activity type a number stands for.
pub open spec fn activity_type_of(v: u8) -> Option<ActivityType> {
    if v == 0 {
        Some(ActivityType::Playing)
    } else if v == 1 {
        Some(ActivityType::Streaming)
    } else if v == 2 {
        Some(ActivityType::Listening)
    } else if v == 3 {
        Some(ActivityType::Watching)
    } else if v == 4 {
        Some(ActivityType::Custom)
    } else if v == 5 {
        Some(ActivityType::Competing)
    } else {
        None
    }
}

impl Default for ActivityType {
    fn default() -> (r: Self)
        ensures
            r == ActivityType::Playing,
    {
        ActivityType::Playing
    }
}

impl TryFrom<u8> for ActivityType {
    type Error = u8;

    fn try_from(value: u8) -> (r: Result<Self, u8>) {
        if value == 0 {
            Ok(ActivityType::Playing)
        } else if value == 1 {
            Ok(ActivityType::Streaming)
        } else if value == 2 {
            Ok(ActivityType::Listening)
        } else if value == 3 {
            Ok(ActivityType::Watching)
        } else if value == 4 {
            Ok(ActivityType::Custom)
        } else if value == 5 {
            Ok(ActivityType::Competing)
        } else {
            Err(value)
        }
    }
}

impl vstd::std_specs::convert::TryFromSpecImpl<u8> for ActivityType {
    open spec fn obeys_try_from_spec() -> bool {
        true
    }

    open spec fn try_from_spec(value: u8) -> Result<Self, u8> {
        match activity_type_of(value) {
            Some(t) => Ok(t),
            None => Err(value),
        }
    }
}

impl From<ActivityType> for u8 {
    fn from(activity_type: ActivityType) -> (r: u8) {
        match activity_type {
            ActivityType::Playing => 0,
            ActivityType::Streaming => 1,
            ActivityType::Listening => 2,
            ActivityType::Watching => 3,
            ActivityType::Custom => 4,
            ActivityType::Competing => 5,
        }
    }
}

impl vstd::std_specs::convert::FromSpecImpl<ActivityType> for u8 {
    open spec fn obeys_from_spec() -> bool {
        true
    }

    open spec fn from_spec(activity_type: ActivityType) -> u8 {
        activity_type_code(activity_type)
    }
}

/// An activity as a client sets it.
pub struct Activity {
    pub application_id: Option<String>,
    pub name: Option<String>,
    pub details: Option<String>,
    pub state: Option<String>,
    pub timestamps: Option<Timestamps>,
    pub assets: Option<Assets>,
    pub party: Option<Party>,
    pub secrets: Option<Secrets>,
    pub buttons: Option<Vec<Button>>,
    pub instance: Option<bool>,
    pub activity_type: Option<ActivityType>,
}

impl Default for Activity {
    fn default() -> (r: Self)
        ensures
            r.application_id is None && r.name is None && r.details is None && r.state is None
                && r.timestamps is None && r.assets is None && r.party is None && r.secrets is None
                && r.buttons is None && r.instance is None && r.activity_type is None,
    {
        Activity {
            application_id: None,
            name: None,
            details: None,
            state: None,
            timestamps: None,
            assets: None,
            party: None,
            secrets: None,
            buttons: None,
            instance: None,
            activity_type: None,
        }
    }
}

/// Start and end of an activity.
pub struct Timestamps {
    pub start: Option<u64>,
    pub end: Option<u64>,
}

/// Images of an activity and their hover texts.
pub struct Assets {
    pub large_image: Option<String>,
    pub large_text: Option<String>,
    pub small_image: Option<String>,
    pub small_text: Option<String>,
}

/// The party of an activity: its id and its current and maximum size.
pub struct Party {
    pub id: Option<String>,
    pub size: Option<Vec<i32>>,
}

/// Secrets for joining and spectating.
pub struct Secrets {
    pub join: Option<String>,
    pub spectate: Option<String>,
    pub match_secret: Option<String>,
}

/// A button: its label and the url it opens.
pub struct Button {
    pub label: String,
    pub url: String,
}

/// An activity as the server passes it on.
pub struct ProcessedActivity {
    pub application_id: String,
    pub name: String,
    pub details: Option<String>,
    pub state: Option<String>,
    pub timestamps: Option<Timestamps>,
    pub assets: Option<Assets>,
    pub party: Option<Party>,
    pub secrets: Option<Secrets>,
    pub metadata: ActivityMetadata,
    pub flags: u32,
    pub buttons: Option<Vec<String>>,
    pub activity_type: Option<ActivityType>,
}

/// The urls behind the buttons of an activity.
pub struct ActivityMetadata {
    pub button_urls: Option<Vec<String>>,
}

/// The arguments of a `SET_ACTIVITY` request.
pub struct SetActivityArgs {
    pub activity: Option<Activity>,
    pub pid: Option<u32>,
}

impl Default for SetActivityArgs {
    fn default() -> (r: Self)
        ensures
            r.activity is None,
            r.pid is None,
    {
        SetActivityArgs { activity: None, pid: None }
    }
}

/// The arguments of the browser commands.
pub struct BrowserArgs {
    pub code: String,
}

/// The arguments of the deep link command.
pub struct DeepLinkArgs {
    pub params: String,
}

/// A socket the RPC server knows.
pub struct SocketInfo {
    pub socket_id: u32,
    pub client_id: String,
    pub last_pid: Option<u32>,
    pub transport_type: TransportType,
    pub sender: tokio::sync::mpsc::UnboundedSender<RpcMessage>,
}

/// The plain content of a `SocketInfo`, without its sender.
pub struct SocketView {
    pub socket_id: u32,
    pub client_id: Seq<char>,
    pub last_pid: Option<u32>,
    pub transport_type: TransportType,
}

impl View for SocketInfo {
    type V = SocketView;

    open spec fn view(&self) -> SocketView {
        SocketView {
            socket_id: self.socket_id,
            client_id: self.client_id@,
            last_pid: self.last_pid,
            transport_type: self.transport_type,
        }
    }
}

/// The events the RPC server emits.
#[allow(inconsistent_fields)]
pub enum RpcEvent {
    Connection { socket_id: u32, socket_info: SocketInfo },
    Disconnection { socket_id: u32 },
    Message { socket_id: u32, request: RpcRequest },
    Activity { activity: Box<Option<ProcessedActivity>>, pid: Option<u32>, socket_id: String },
}

/// A connection a transport hands to the RPC server.
pub struct SocketConnection {
    pub socket_id: u32,
    pub client_id: String,
    pub transport_type: TransportType,
    pub sender: tokio::sync::mpsc::UnboundedSender<RpcMessage>,
}

impl SocketConnection {
    /// Queues a message for the connection; fails when the connection's
    /// receiving side is gone.
    pub fn send(&self, message: RpcMessage) -> (r: Result<(), ArrusError>)
        ensures
            r is Err ==> r == Err::<(), ArrusError>(ArrusError::SendError),
    {
        if unbounded_send(&self.sender, message) {
            Ok(())
        } else {
            Err(ArrusError::SendError)
        }
    }
}

} // verus!
