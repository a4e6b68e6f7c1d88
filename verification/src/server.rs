//! The RPC server: the sockets it knows, what it answers them, and the
//! events it emits for the rest of the program.
pub mod handlers;
pub mod protocol;
pub mod types;

use vstd::prelude::*;
use crate::error::ArrusError;
use crate::json::{json_view, Json, JsonView};
use crate::outside::{clock_millis, unbounded_send};
use crate::server::handlers::{activity_processable, carries_timestamp, has_timestamp, process_activity_given, processes_to, reading_of};
use crate::server::protocol::{create_ready_payload, ready_payload_view};
use crate::server::types::{
    Activity, ProcessedActivity, RpcCommand, RpcEvent, RpcEventType, RpcMessage, RpcRequest, SetActivityArgs,
    SocketConnection, SocketInfo, SocketView,
};
use crate::text::{chars_of, decimal, decimal_string, string_from_chars};
use std::collections::HashMap;

verus! {

broadcast use vstd::std_specs::hash::group_hash_axioms;

/// `tokio::sync::mpsc::UnboundedSender::clone`: another handle on the same
/// channel.
#[verifier::external_body]
fn clone_sender(sender: &tokio::sync::mpsc::UnboundedSender<RpcMessage>) -> tokio::sync::mpsc::UnboundedSender<RpcMessage> {
    sender.clone()
}

impl SocketInfo {
    /// A copy with the same content, whose sender is a handle on the same
    /// channel.
    pub fn duplicate(&self) -> (r: Self)
        ensures
            r@ == self@,
    {
        SocketInfo {
            socket_id: self.socket_id,
            client_id: self.client_id.clone(),
            last_pid: self.last_pid,
            transport_type: self.transport_type,
            sender: clone_sender(&self.sender),
        }
    }
}

/// Something the server handed to a channel: a message for a socket, or an
/// event.
pub enum Sent {
    ToSocket(u32, RpcMessage),
    Emitted(RpcEvent),
}

/// The message that greets a new socket: a DISPATCH of the READY event
/// with the READY payload.
pub open spec fn is_ready_message(m: RpcMessage) -> bool {
    &&& m.cmd == RpcCommand::DISPATCH
    &&& m.evt == Some(RpcEventType::READY)
    &&& m.nonce is None
    &&& m.data matches Some(d) && json_view(d) == ready_payload_view()
}

/// The answer to a connections callback: an ERROR with code 1000.
pub open spec fn is_callback_reply(m: RpcMessage, nonce: Option<String>) -> bool {
    &&& m.cmd == RpcCommand::CONNECTIONS_CALLBACK
    &&& m.evt == Some(RpcEventType::ERROR)
    &&& m.nonce == nonce
    &&& m.data matches Some(d) && json_view(d) == JsonView::Object(seq![("code"@, JsonView::Number("1000"@))])
}

/// The answer to SET_ACTIVITY: no data when the activity was cleared, else
/// an empty name, the client's id as the application id, and type 0.
pub open spec fn is_activity_reply(m: RpcMessage, nonce: Option<String>, client_id: Option<Seq<char>>) -> bool {
    &&& m.cmd == RpcCommand::SET_ACTIVITY
    &&& m.evt is None
    &&& m.nonce == nonce
    &&& match client_id {
        None => m.data is None,
        Some(c) => m.data matches Some(d) && json_view(d) == JsonView::Object(seq![
            ("name"@, JsonView::Str(Seq::empty())),
            ("application_id"@, JsonView::Str(c)),
            ("type"@, JsonView::Number("0"@)),
        ]),
    }
}

/// An activity event for the socket: no activity, with the pid.
pub open spec fn is_clear_event(e: RpcEvent, socket_id: u32, pid: Option<u32>) -> bool {
    e matches RpcEvent::Activity { activity, pid: p, socket_id: s } && *activity is None && p == pid
        && s@ == decimal(socket_id as nat)
}

/// An activity event for the socket: what the server made of the activity
/// `a` of the client `client_id`, with the pid.
pub open spec fn is_shown_event(e: RpcEvent, socket_id: u32, pid: Option<u32>, a: Activity, client_id: Seq<char>, now_ms: nat) -> bool {
    e matches RpcEvent::Activity { activity, pid: p, socket_id: s } && p == pid && s@ == decimal(socket_id as nat)
        && (*activity matches Some(x) && processes_to(a, client_id, now_ms, x))
}

/// The arguments a SET_ACTIVITY request stands for: those read from its
/// arguments, or none at all when it has none.
pub open spec fn args_of(parsed: Option<Result<SetActivityArgs, ArrusError>>) -> SetActivityArgs {
    match parsed {
        Some(Ok(a)) => a,
        _ => SetActivityArgs { activity: None, pid: None },
    }
}

/// The plain content of the sockets, by id.
pub open spec fn socket_views(m: Map<u32, SocketInfo>) -> Map<u32, SocketView> {
    m.map_values(|s: SocketInfo| s@)
}

/// The RPC server: the sockets it knows, each with its own id.
pub struct RpcServer {
    sockets: HashMap<u32, SocketInfo>,
    socket_counter: u32,
    event_tx: tokio::sync::mpsc::UnboundedSender<RpcEvent>,
    sent: Ghost<Seq<Sent>>,
}

impl RpcServer {
    #[verifier::type_invariant]
    closed spec fn well_formed(&self) -> bool {
        forall|id: u32| #[trigger] self.sockets@.contains_key(id)
            ==> self.sockets@[id].socket_id == id && id <= self.socket_counter
    }

    /// The sockets known, by id.
    pub closed spec fn sockets(&self) -> Map<u32, SocketView> {
        socket_views(self.sockets@)
    }

    /// How many connections were accepted so far; the last id given out.
    pub closed spec fn counter(&self) -> u32 {
        self.socket_counter
    }

    /// Everything handed to a channel so far, in order.
    pub closed spec fn log(&self) -> Seq<Sent> {
        self.sent@
    }

    /// A server that knows no socket and emits its events on `event_tx`.
    pub fn new(event_tx: tokio::sync::mpsc::UnboundedSender<RpcEvent>) -> (r: Self)
        ensures
            r.sockets() == Map::<u32, SocketView>::empty(),
            r.counter() == 0,
            r.log() == Seq::<Sent>::empty(),
    {
        let r = RpcServer { sockets: HashMap::new(), socket_counter: 0, event_tx, sent: Ghost(Seq::empty()) };
        assert(r.sockets() =~= Map::<u32, SocketView>::empty());
        r
    }

    /// The number of connections accepted so far.
    pub fn connections_accepted(&self) -> (r: u32)
        ensures
            r == self.counter(),
    {
        self.socket_counter
    }

    /// Records an event and hands it to the event channel.
    fn emit(&mut self, event: RpcEvent)
        ensures
            final(self).log() == old(self).log().push(Sent::Emitted(event)),
            final(self).sockets() == old(self).sockets(),
            final(self).counter() == old(self).counter(),
    {
        proof {
            use_type_invariant(&*self);
            self.sent@ = self.sent@.push(Sent::Emitted(event));
        }
        unbounded_send(&self.event_tx, event);
    }

    /// A new connection: it gets the next id and is greeted with READY;
    /// when the greeting could be queued, the socket is recorded and a
    /// connection event is emitted. Returns whether the greeting was queued.
    pub fn hdl_conn(&mut self, socket: SocketConnection) -> (delivered: bool)
        requires
            old(self).counter() < u32::MAX,
        ensures
            final(self).counter() == old(self).counter() + 1,
            final(self).log().len() > old(self).log().len(),
            final(self).log().take(old(self).log().len() as int) == old(self).log(),
            final(self).log()[old(self).log().len() as int] matches Sent::ToSocket(id, m)
                && id == final(self).counter() && is_ready_message(m),
            !old(self).sockets().contains_key(final(self).counter()),
            !delivered ==> final(self).sockets() == old(self).sockets() && final(self).log().len() == old(self).log().len() + 1,
            delivered ==> {
                let v = SocketView {
                    socket_id: final(self).counter(),
                    client_id: socket.client_id@,
                    last_pid: None,
                    transport_type: socket.transport_type,
                };
                &&& final(self).sockets() == old(self).sockets().insert(v.socket_id, v)
                &&& final(self).log().len() == old(self).log().len() + 2
                &&& final(self).log().last() matches Sent::Emitted(RpcEvent::Connection { socket_id, socket_info })
                    && socket_id == v.socket_id && socket_info@ == v
            },
    {
        proof {
            use_type_invariant(&*self);
        }
        let socket_id = self.socket_counter + 1;
        self.socket_counter = socket_id;
        let ready = RpcMessage {
            cmd: RpcCommand::DISPATCH,
            data: Some(create_ready_payload()),
            evt: Some(RpcEventType::READY),
            nonce: None,
        };
        proof {
            self.sent@ = self.sent@.push(Sent::ToSocket(socket_id, ready));
        }
        let ghost greeted = self.sent@;
        if socket.send(ready).is_err() {
            assert(self.log().take(old(self).log().len() as int) =~= old(self).log());
            return false;
        }
        let info = SocketInfo {
            socket_id,
            client_id: socket.client_id.clone(),
            last_pid: None,
            transport_type: socket.transport_type,
            sender: clone_sender(&socket.sender),
        };
        let ghost before = self.sockets();
        let mut all: HashMap<u32, SocketInfo> = HashMap::new();
        std::mem::swap(&mut all, &mut self.sockets);
        all.insert(socket_id, info.duplicate());
        assert(socket_views(all@) =~= before.insert(socket_id, info@));
        self.sockets = all;
        self.emit(RpcEvent::Connection { socket_id, socket_info: info });
        assert(self.log().take(old(self).log().len() as int) =~= old(self).log());
        assert(self.log()[old(self).log().len() as int] == greeted[old(self).log().len() as int]);
        true
    }

    /// A request from a socket: a message event is emitted, then the request
    /// is carried out (see `process_command`). `parsed_args` is what the
    /// request's arguments read as SET_ACTIVITY arguments, when it has any.
    pub fn hdl_msg(
        &mut self,
        socket_id: u32,
        request: RpcRequest,
        parsed_args: Option<Result<SetActivityArgs, ArrusError>>,
    ) -> (r: Result<(), ArrusError>)
        ensures
            final(self).counter() == old(self).counter(),
            final(self).log().len() > old(self).log().len(),
            final(self).log().take(old(self).log().len() as int) == old(self).log(),
            final(self).log()[old(self).log().len() as int] matches Sent::Emitted(RpcEvent::Message { socket_id: id, request: q })
                && id == socket_id && q.cmd == request.cmd && q.nonce == request.nonce,
            exists|now: Option<u128>| #[trigger] command_done(old(self).sockets(), final(self).log().take(old(self).log().len() + 1int),
                final(self).sockets(), final(self).log(), socket_id, request.cmd, request.nonce, parsed_args, now, r),
            !clock_needed(request.cmd, parsed_args) ==> command_done(old(self).sockets(),
                final(self).log().take(old(self).log().len() + 1int), final(self).sockets(), final(self).log(), socket_id,
                request.cmd, request.nonce, parsed_args, None, r),
    {
        let copy = RpcRequest {
            cmd: request.cmd,
            args: match &request.args {
                Some(a) => Some(a.copy()),
                None => None,
            },
            nonce: request.nonce.clone(),
        };
        self.emit(RpcEvent::Message { socket_id, request: copy });
        let ghost mid = self.log();
        let ghost mid_sockets = self.sockets();
        let ghost (cmd, nonce, pa) = (request.cmd, request.nonce, parsed_args);
        let r = self.process_command(socket_id, request, parsed_args);
        assert(self.log().take(mid.len() as int) == mid);
        assert(mid_sockets == old(self).sockets());
        assert(self.log().take(old(self).log().len() as int) =~= old(self).log()) by {
            assert(self.log().take(mid.len() as int) == mid);
            assert forall|i: int| 0 <= i < old(self).log().len() implies self.log()[i] == old(self).log()[i] by {
                assert(self.log()[i] == self.log().take(mid.len() as int)[i]);
                assert(mid[i] == old(self).log()[i]);
            }
        }
        assert(self.log()[old(self).log().len() as int] == mid[old(self).log().len() as int]) by {
            assert(self.log()[old(self).log().len() as int] == self.log().take(mid.len() as int)[old(self).log().len() as int]);
        }
        r
    }

    /// Carries out a request from a socket, reading the clock only when the
    /// request sets an activity with timestamps (see `process_command_at`).
    pub fn process_command(
        &mut self,
        socket_id: u32,
        request: RpcRequest,
        parsed_args: Option<Result<SetActivityArgs, ArrusError>>,
    ) -> (r: Result<(), ArrusError>)
        ensures
            final(self).counter() == old(self).counter(),
            final(self).log().len() >= old(self).log().len(),
            final(self).log().take(old(self).log().len() as int) == old(self).log(),
            exists|now: Option<u128>| command_done(old(self).sockets(), old(self).log(), final(self).sockets(),
                final(self).log(), socket_id, request.cmd, request.nonce, parsed_args, now, r),
            !clock_needed(request.cmd, parsed_args) ==> command_done(old(self).sockets(), old(self).log(),
                final(self).sockets(), final(self).log(), socket_id, request.cmd, request.nonce, parsed_args, None, r),
    {
        let now = if needs_clock(request.cmd, &parsed_args) {
            clock_millis()
        } else {
            None
        };
        let ghost (cmd, nonce) = (request.cmd, request.nonce);
        let r = self.process_command_at(socket_id, request, parsed_args, now);
        assert(command_done(old(self).sockets(), old(self).log(), self.sockets(), self.log(), socket_id, cmd, nonce,
            parsed_args, now, r));
        r
    }

    /// Carries out a request from a socket, given what the clock read
    /// (`None` for a clock set before the epoch): an unknown socket is an
    /// error; a connections callback is answered with code 1000;
    /// SET_ACTIVITY is handled by `handle_set_activity`; other commands are
    /// not carried out.
    pub fn process_command_at(
        &mut self,
        socket_id: u32,
        request: RpcRequest,
        parsed_args: Option<Result<SetActivityArgs, ArrusError>>,
        now: Option<u128>,
    ) -> (r: Result<(), ArrusError>)
        ensures
            final(self).counter() == old(self).counter(),
            final(self).log().len() >= old(self).log().len(),
            final(self).log().take(old(self).log().len() as int) == old(self).log(),
            command_done(old(self).sockets(), old(self).log(), final(self).sockets(), final(self).log(), socket_id,
                request.cmd, request.nonce, parsed_args, now, r),
    {
        proof {
            use_type_invariant(&*self);
        }
        let known = match self.sockets.get(&socket_id) {
            Some(_) => true,
            None => false,
        };
        if !known {
            assert(self.log().take(self.log().len() as int) =~= self.log());
            return Err(ArrusError::SocketNotFound(socket_id));
        }
        match request.cmd {
            RpcCommand::CONNECTIONS_CALLBACK => {
                let mut f: Vec<(String, Json)> = Vec::new();
                proof {
                    reveal_strlit("1000");
                    assert(decimal(1000u64 as nat) =~= "1000"@) by {
                        reveal_with_fuel(decimal, 4);
                    }
                }
                f.push(Json::member("code", Json::unsigned(1000)));
                let data = Json::object(f);
                assert(json_view(data)->Object_0 =~= seq![("code"@, JsonView::Number("1000"@))]);
                let reply = RpcMessage {
                    cmd: RpcCommand::CONNECTIONS_CALLBACK,
                    data: Some(data),
                    evt: Some(RpcEventType::ERROR),
                    nonce: request.nonce,
                };
                proof {
                    self.sent@ = self.sent@.push(Sent::ToSocket(socket_id, reply));
                }
                assert(self.log().take(old(self).log().len() as int) =~= old(self).log());
                if self.send_to(socket_id, reply) {
                    Ok(())
                } else {
                    Err(ArrusError::SendError)
                }
            },
            RpcCommand::SET_ACTIVITY => {
                self.handle_set_activity(socket_id, parsed_args, request.nonce, now)
            },
            _ => {
                assert(self.log().take(self.log().len() as int) =~= self.log());
                Ok(())
            },
        }
    }

    /// Hands a message to the known socket's channel; whether it was
    /// queued.
    fn send_to(&self, socket_id: u32, message: RpcMessage) -> (r: bool)
        requires
            self.sockets().contains_key(socket_id),
    {
        match self.sockets.get(&socket_id) {
            Some(info) => unbounded_send(&info.sender, message),
            None => false,
        }
    }

    /// SET_ACTIVITY for the known socket, given what the clock read: the pid, when given, becomes the socket's last pid; the client
    /// is answered and an activity event is emitted, with no activity when
    /// the request clears it and what the server makes of the activity
    /// otherwise; an activity that cannot be processed is an error.
    fn handle_set_activity(
        &mut self,
        socket_id: u32,
        parsed_args: Option<Result<SetActivityArgs, ArrusError>>,
        nonce: Option<String>,
        now: Option<u128>,
    ) -> (r: Result<(), ArrusError>)
        requires
            old(self).sockets().contains_key(socket_id),
        ensures
            final(self).counter() == old(self).counter(),
            final(self).log().len() >= old(self).log().len(),
            final(self).log().take(old(self).log().len() as int) == old(self).log(),
            set_activity_done(old(self).sockets(), old(self).log(), final(self).sockets(), final(self).log(),
                socket_id, parsed_args, nonce, now, r),
    {
        proof {
            use_type_invariant(&*self);
        }
        let ghost pa = parsed_args;
        let args = match parsed_args {
            None => SetActivityArgs::default(),
            Some(Ok(a)) => a,
            Some(Err(e)) => {
                assert(self.log().take(self.log().len() as int) =~= self.log());
                return Err(e);
            },
        };
        let ghost a = args;
        assert(a == args_of(pa));
        let ghost before = self.sockets();
        let mut info = match self.sockets.get(&socket_id) {
            Some(i) => i.duplicate(),
            None => {
                return Err(ArrusError::SocketNotFound(socket_id));
            },
        };
        if let Some(pid) = args.pid {
            info.last_pid = Some(pid);
            let ghost iv = info@;
            let mut all: HashMap<u32, SocketInfo> = HashMap::new();
            std::mem::swap(&mut all, &mut self.sockets);
            all.insert(socket_id, info.duplicate());
            assert(socket_views(all@) =~= before.insert(socket_id, iv));
            self.sockets = all;
        }
        let client_id = info.client_id.clone();
        let ghost updated = self.sockets();
        let socket_text = decimal_string(socket_id as u128);
        match args.activity {
            None => {
                let reply = RpcMessage { cmd: RpcCommand::SET_ACTIVITY, data: None, evt: None, nonce };
                proof {
                    self.sent@ = self.sent@.push(Sent::ToSocket(socket_id, reply));
                }
                if !self.send_to(socket_id, reply) {
                    assert(self.log().take(old(self).log().len() as int) =~= old(self).log());
                    return Err(ArrusError::SendError);
                }
                self.emit(RpcEvent::Activity { activity: Box::new(None), pid: args.pid, socket_id: socket_text });
                assert(self.log().take(old(self).log().len() as int) =~= old(self).log());
                Ok(())
            },
            Some(activity) => {
                let ghost act = activity;
                let processed = match process_activity_given(activity, client_id.as_str(), now) {
                    Some(p) => p,
                    None => {
                        assert(self.log().take(self.log().len() as int) =~= self.log());
                        proof {
                            reveal_strlit("system clock unavailable");
                            reveal_strlit("activity timestamp out of range");
                        }
                        let text = if now.is_none() {
                            "system clock unavailable"
                        } else {
                            "activity timestamp out of range"
                        };
                        return Err(ArrusError::Io(string_from_chars(chars_of(text).as_slice())));
                    },
                };
                let mut f: Vec<(String, Json)> = Vec::new();
                proof {
                    reveal_strlit("0");
                    assert(decimal(0u64 as nat) =~= "0"@);
                }
                f.push(Json::member("name", Json::text("")));
                f.push(Json::member("application_id", Json::text(client_id.as_str())));
                f.push(Json::member("type", Json::unsigned(0)));
                let data = Json::object(f);
                proof {
                    reveal_strlit("");
                    assert(""@ =~= Seq::<char>::empty());
                    assert(json_view(data)->Object_0 =~= seq![
                        ("name"@, JsonView::Str(Seq::empty())),
                        ("application_id"@, JsonView::Str(client_id@)),
                        ("type"@, JsonView::Number("0"@)),
                    ]);
                }
                let reply = RpcMessage { cmd: RpcCommand::SET_ACTIVITY, data: Some(data), evt: None, nonce };
                proof {
                    self.sent@ = self.sent@.push(Sent::ToSocket(socket_id, reply));
                }
                if !self.send_to(socket_id, reply) {
                    assert(self.log().take(old(self).log().len() as int) =~= old(self).log());
                    return Err(ArrusError::SendError);
                }
                self.emit(RpcEvent::Activity { activity: Box::new(Some(processed)), pid: args.pid, socket_id: socket_text });
                assert(self.log().take(old(self).log().len() as int) =~= old(self).log());
                Ok(())
            },
        }
    }

    /// A socket closed: when it was known, it is forgotten, and an event
    /// clearing its activity (with its last pid) and a disconnection event
    /// are emitted.
    pub fn hdl_close(&mut self, socket_id: u32)
        ensures
            final(self).counter() == old(self).counter(),
            !old(self).sockets().contains_key(socket_id)
                ==> final(self).sockets() == old(self).sockets() && final(self).log() == old(self).log(),
            old(self).sockets().contains_key(socket_id) ==> {
                &&& final(self).sockets() == old(self).sockets().remove(socket_id)
                &&& final(self).log().len() == old(self).log().len() + 2
                &&& final(self).log().take(old(self).log().len() as int) == old(self).log()
                &&& final(self).log()[old(self).log().len() as int] matches Sent::Emitted(e)
                    && is_clear_event(e, socket_id, old(self).sockets()[socket_id].last_pid)
                &&& final(self).log().last() matches Sent::Emitted(RpcEvent::Disconnection { socket_id: id })
                    && id == socket_id
            },
    {
        proof {
            use_type_invariant(&*self);
        }
        let ghost before = self.sockets();
        let mut all: HashMap<u32, SocketInfo> = HashMap::new();
        std::mem::swap(&mut all, &mut self.sockets);
        let removed = all.remove(&socket_id);
        assert(socket_views(all@) =~= before.remove(socket_id));
        self.sockets = all;
        match removed {
            None => {
                assert(before.remove(socket_id) =~= before);
            },
            Some(info) => {
                let text = decimal_string(socket_id as u128);
                self.emit(RpcEvent::Activity { activity: Box::new(None), pid: info.last_pid, socket_id: text });
                let ghost mid = self.log();
                self.emit(RpcEvent::Disconnection { socket_id });
                assert(self.log().take(old(self).log().len() as int) =~= old(self).log());
                assert(self.log()[old(self).log().len() as int] == mid[old(self).log().len() as int]);
            },
        }
    }
}

/// What carrying out a request did: an unknown socket is an error and
/// changes nothing; a connections callback is answered; SET_ACTIVITY does
/// what `set_activity_done` says; any other command changes nothing.
pub open spec fn command_done(
    sockets: Map<u32, SocketView>,
    log: Seq<Sent>,
    sockets2: Map<u32, SocketView>,
    log2: Seq<Sent>,
    socket_id: u32,
    cmd: RpcCommand,
    nonce: Option<String>,
    parsed_args: Option<Result<SetActivityArgs, ArrusError>>,
    now: Option<u128>,
    r: Result<(), ArrusError>,
) -> bool {
    if !sockets.contains_key(socket_id) {
        r == Err::<(), ArrusError>(ArrusError::SocketNotFound(socket_id)) && sockets2 == sockets && log2 == log
    } else if cmd == RpcCommand::CONNECTIONS_CALLBACK {
            &&& sockets2 == sockets
            &&& log2.len() == log.len() + 1
            &&& log2.take(log.len() as int) == log
            &&& log2.last() matches Sent::ToSocket(id, m) && id == socket_id && is_callback_reply(m, nonce)
            &&& (r is Ok || r == Err::<(), ArrusError>(ArrusError::SendError))
    } else if cmd == RpcCommand::SET_ACTIVITY {
        set_activity_done(sockets, log, sockets2, log2, socket_id, parsed_args, nonce, now, r)
    } else {
        r is Ok && sockets2 == sockets && log2 == log
    }
}

/// What SET_ACTIVITY for the known socket did, from the sockets and log
/// before to those after, given what the clock read, with the result `r`.
pub open spec fn set_activity_done(
    sockets: Map<u32, SocketView>,
    log: Seq<Sent>,
    sockets2: Map<u32, SocketView>,
    log2: Seq<Sent>,
    socket_id: u32,
    parsed_args: Option<Result<SetActivityArgs, ArrusError>>,
    nonce: Option<String>,
    now: Option<u128>,
    r: Result<(), ArrusError>,
) -> bool {
    let a = args_of(parsed_args);
    let updated = match a.pid {
        Some(p) => sockets.insert(socket_id, SocketView { last_pid: Some(p), ..sockets[socket_id] }),
        None => sockets,
    };
    let client = sockets[socket_id].client_id;
    match parsed_args {
        Some(Err(e)) => r == Err::<(), ArrusError>(e) && sockets2 == sockets && log2 == log,
        _ => {
            &&& sockets2 == updated
            &&& match a.activity {
                None => {
                    &&& log2.len() >= log.len() + 1
                    &&& log2[log.len() as int] matches Sent::ToSocket(id, m) && id == socket_id
                        && is_activity_reply(m, nonce, None)
                    &&& (r == Err::<(), ArrusError>(ArrusError::SendError) && log2.len() == log.len() + 1)
                        || (r is Ok && log2.len() == log.len() + 2
                            && (log2.last() matches Sent::Emitted(e) && is_clear_event(e, socket_id, a.pid)))
                },
                Some(act) => if activity_processable(act, now) {
                    &&& log2.len() >= log.len() + 1
                    &&& log2[log.len() as int] matches Sent::ToSocket(id, m) && id == socket_id
                        && is_activity_reply(m, nonce, Some(client))
                    &&& (r == Err::<(), ArrusError>(ArrusError::SendError) && log2.len() == log.len() + 1)
                        || (r is Ok && log2.len() == log.len() + 2
                            && (log2.last() matches Sent::Emitted(e)
                                && is_shown_event(e, socket_id, a.pid, act, client, reading_of(now))))
                } else {
                    r matches Err(ArrusError::Io(m)) && m@ == refusal_text(now) && log2 == log
                },
            }
        },
    }
}

/// Why an activity could not be processed: no clock reading, or a
/// timestamp out of range at the reading.
pub open spec fn refusal_text(now: Option<u128>) -> Seq<char> {
    if now is None {
        "system clock unavailable"@
    } else {
        "activity timestamp out of range"@
    }
}

/// The request sets an activity with a start or end time, whose processing needs
/// the clock.
pub open spec fn clock_needed(cmd: RpcCommand, parsed_args: Option<Result<SetActivityArgs, ArrusError>>) -> bool {
    cmd == RpcCommand::SET_ACTIVITY && (parsed_args matches Some(Ok(a)) && (a.activity matches Some(act)
        && has_timestamp(act)))
}

/// Whether the request sets an activity with a start or end time.
fn needs_clock(cmd: RpcCommand, parsed_args: &Option<Result<SetActivityArgs, ArrusError>>) -> (r: bool)
    ensures
        r == clock_needed(cmd, *parsed_args),
{
    match cmd {
        RpcCommand::SET_ACTIVITY => match parsed_args {
            Some(Ok(a)) => match &a.activity {
                Some(act) => carries_timestamp(act),
                None => false,
            },
            _ => false,
        },
        _ => false,
    }
}

} // verus!
