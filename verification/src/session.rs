//! The per-connection session: protocol state, command dispatch and
//! heartbeat timeout.
//!
//! A session lives next to one bidirectional streaming connection. It
//! never touches the connection or the broker itself: each event
//! handler mutates the session state and returns the actions the
//! transport layer must perform — replies to the peer, requests to the
//! broker, or closing the connection. The lifecycle is
//! `Connecting -> Active -> Disconnecting -> Closed`; the heartbeat
//! timer fires every `HEARTBEAT_INTERVAL_MS` and tears the session
//! down once no liveness signal has been seen for more than
//! `CLIENT_TIMEOUT_MS`.

use vstd::prelude::*;

use crate::protocol::Command;
use crate::protocol::arg_of;
use crate::protocol::head_of;
use crate::protocol::parse_command;
use crate::protocol::spec_trim;
use crate::protocol::trim;
use crate::textfmt::dec_digits;
use crate::textfmt::u64_to_string;

verus! {

/// How often heartbeat probes are sent, in milliseconds.
pub const HEARTBEAT_INTERVAL_MS: u64 = 5000;

/// How long without a liveness signal before the connection is
/// considered dead, in milliseconds.
pub const CLIENT_TIMEOUT_MS: u64 = 10000;

/// Lifecycle of a connection session.
#[derive(Clone, Copy, PartialEq, Eq, Structural, Debug)]
pub enum SessionState {
    /// Created, identifier not yet assigned by the broker.
    Connecting,
    /// Registered with the broker and exchanging frames.
    Active,
    /// Tearing down; the broker must be told exactly once.
    Disconnecting,
    /// Fully torn down.
    Closed,
}

/// One inbound frame from the connection, as the transport hands it over.
pub enum Frame {
    /// Liveness probe from the peer; its payload is echoed back.
    Ping(Vec<u8>),
    /// The peer's answer to our probe.
    Pong(Vec<u8>),
    /// A text frame: a command or a chat message.
    Text(String),
    /// A binary frame: unexpected, ignored.
    Binary(Vec<u8>),
    /// The peer closed the connection.
    Close,
    /// A continuation frame: unsupported, fatal.
    Continuation,
    /// An empty frame: no effect.
    Nop,
    /// An unrecoverable framing error: fatal.
    Error,
}

/// What the transport layer must do after an event was handled.
pub enum SessionAction {
    /// Send this text back to this session's own peer.
    Reply(String),
    /// Answer a probe, echoing its payload.
    ReplyPong(Vec<u8>),
    /// Send a liveness probe to the peer.
    SendPing,
    /// Ask the broker for the room directory and reply each name as a
    /// separate text frame.
    ListRooms,
    /// Ask the broker to move this session to `room`.
    JoinRoom { id: u64, room: String },
    /// Ask the broker to deliver `text` to the members of `room`.
    SendChat { id: u64, room: String, text: String },
    /// Tell the broker the session is gone.
    Disconnect { id: u64 },
    /// Close the underlying connection.
    CloseConnection,
}

/// One connection's protocol state.
pub struct Session {
    /// Lifecycle state.
    pub state: SessionState,
    /// Identifier assigned by the broker at connect time.
    pub id: u64,
    /// The room this session currently speaks to.
    pub room: String,
    /// Optional display name, set by the `/name` command.
    pub name: Option<String>,
    /// When the last liveness signal was observed, in milliseconds.
    pub last_seen: u64,
}

/// The inline reply confirming a `/join`.
pub open spec fn join_confirm(id: u64) -> Seq<char> {
    "user "@ + dec_digits(id as nat) + " joined"@
}

/// A chat line as composed for the room: prefixed with the display
/// name when one is set.
pub open spec fn chat_line(name: Option<String>, m: Seq<char>) -> Seq<char> {
    match name {
        Some(n) => n@ + ": "@ + m,
        None => m,
    }
}

/// All fields of `f` equal those of `o` except possibly the ones a
/// handler is allowed to change; used to state frame handling.
pub open spec fn same_identity(o: Session, f: Session) -> bool {
    &&& f.id == o.id
    &&& f.last_seen == o.last_seen
}

/// The required outcome of handling one text frame `t` in state `o`:
/// the new state `f` and the actions `acts`.
pub open spec fn text_outcome(o: Session, f: Session, t: Seq<char>, acts: Seq<SessionAction>) -> bool {
    let m = spec_trim(t);
    if m.len() > 0 && m[0] == '/' {
        let h = head_of(m);
        if h == "/list"@ {
            f == o && acts.len() == 1 && acts[0] is ListRooms
        } else if h == "/join"@ {
            match arg_of(m) {
                Some(a) => {
                    &&& same_identity(o, f)
                    &&& f.state == o.state
                    &&& f.name == o.name
                    &&& f.room@ == a
                    &&& acts.len() == 2
                    &&& (acts[0] matches SessionAction::JoinRoom { id, room } && id == o.id
                        && room@ == a)
                    &&& (acts[1] matches SessionAction::Reply(x) && x@ == join_confirm(o.id))
                },
                None => {
                    &&& f == o
                    &&& acts.len() == 1
                    &&& (acts[0] matches SessionAction::Reply(x) && x@
                        == "!!! room name is required"@)
                },
            }
        } else if h == "/name"@ {
            match arg_of(m) {
                Some(a) => {
                    &&& same_identity(o, f)
                    &&& f.state == o.state
                    &&& f.room == o.room
                    &&& (f.name matches Some(nm) && nm@ == a)
                    &&& acts.len() == 0
                },
                None => {
                    &&& f == o
                    &&& acts.len() == 1
                    &&& (acts[0] matches SessionAction::Reply(x) && x@ == "!!! name is required"@)
                },
            }
        } else {
            &&& f == o
            &&& acts.len() == 1
            &&& (acts[0] matches SessionAction::Reply(x) && x@ == "!!! unknown command: "@ + m)
        }
    } else {
        &&& f == o
        &&& acts.len() == 1
        &&& (acts[0] matches SessionAction::SendChat { id, room, text } && id == o.id && room@
            == o.room@ && text@ == chat_line(o.name, m))
    }
}

/// The required outcome of handling one frame in state `o`: the new
/// state `f` and the actions `acts`. Probes refresh the liveness
/// timestamp; close and framing errors tear the session down; binary
/// frames and empty frames have no effect.
pub open spec fn frame_outcome(
    o: Session,
    f: Session,
    frame: Frame,
    now: u64,
    acts: Seq<SessionAction>,
) -> bool {
    match frame {
        Frame::Ping(p) => {
            &&& f == (Session { last_seen: now, ..o })
            &&& acts.len() == 1
            &&& (acts[0] matches SessionAction::ReplyPong(q) && q@ == p@)
        },
        Frame::Pong(_) => f == (Session { last_seen: now, ..o }) && acts.len() == 0,
        Frame::Text(t) => text_outcome(o, f, t@, acts),
        Frame::Binary(_) => f == o && acts.len() == 0,
        Frame::Close => f == (Session { state: SessionState::Disconnecting, ..o }) && acts.len()
            == 1 && acts[0] is CloseConnection,
        Frame::Continuation => f == (Session { state: SessionState::Disconnecting, ..o })
            && acts.len() == 1 && acts[0] is CloseConnection,
        Frame::Nop => f == o && acts.len() == 0,
        Frame::Error => f == (Session { state: SessionState::Disconnecting, ..o }) && acts.len()
            == 1 && acts[0] is CloseConnection,
    }
}

impl Session {
    /// A fresh session for a just-accepted connection: not yet
    /// registered, default room "Main", no display name, last liveness
    /// signal now.
    pub fn new(now: u64) -> (s: Session)
        ensures
            s.state == SessionState::Connecting,
            s.id == 0,
            s.room@ == "Main"@,
            s.name is None,
            s.last_seen == now,
    {
        Session {
            state: SessionState::Connecting,
            id: 0,
            room: String::from_str("Main"),
            name: None,
            last_seen: now,
        }
    }

    /// The broker accepted the registration and assigned `id`: the
    /// session becomes active.
    pub fn on_connected(&mut self, id: u64)
        requires
            old(self).state == SessionState::Connecting,
        ensures
            *final(self) == (Session { state: SessionState::Active, id, ..*old(self) }),
    {
        self.state = SessionState::Active;
        self.id = id;
    }

    /// The registration with the broker failed: tear the session down.
    pub fn on_connect_failed(&mut self)
        requires
            old(self).state == SessionState::Connecting,
        ensures
            *final(self) == (Session { state: SessionState::Disconnecting, ..*old(self) }),
    {
        self.state = SessionState::Disconnecting;
    }

    /// A heartbeat tick at time `now`: if no liveness signal arrived
    /// within the timeout window, the session starts disconnecting and
    /// the connection must be closed; otherwise a probe is sent.
    /// `now` comes from a monotonic clock, hence never precedes the
    /// last observed signal.
    pub fn on_heartbeat_tick(&mut self, now: u64) -> (act: SessionAction)
        requires
            old(self).state == SessionState::Active,
            now >= old(self).last_seen,
        ensures
            now - old(self).last_seen > CLIENT_TIMEOUT_MS ==> ({
                &&& *final(self) == (Session { state: SessionState::Disconnecting, ..*old(self) })
                &&& act is CloseConnection
            }),
            now - old(self).last_seen <= CLIENT_TIMEOUT_MS ==> ({
                &&& *final(self) == *old(self)
                &&& act is SendPing
            }),
    {
        if now - self.last_seen > CLIENT_TIMEOUT_MS {
            self.state = SessionState::Disconnecting;
            SessionAction::CloseConnection
        } else {
            SessionAction::SendPing
        }
    }

    /// The session is being torn down: the broker is told exactly once
    /// that this session is gone, then the session is closed.
    pub fn on_stopping(&mut self) -> (act: Option<SessionAction>)
        ensures
            *final(self) == (Session { state: SessionState::Closed, ..*old(self) }),
            old(self).state != SessionState::Closed ==> act == Some(
                (SessionAction::Disconnect { id: old(self).id }),
            ),
            old(self).state == SessionState::Closed ==> act is None,
    {
        if self.state == SessionState::Closed {
            None
        } else {
            self.state = SessionState::Closed;
            Some(SessionAction::Disconnect { id: self.id })
        }
    }

    /// Handles one inbound frame at time `now` while active.
    pub fn handle_frame(&mut self, frame: Frame, now: u64) -> (acts: Vec<SessionAction>)
        requires
            old(self).state == SessionState::Active,
        ensures
            frame_outcome(*old(self), *final(self), frame, now, acts@),
    {
        let mut acts: Vec<SessionAction> = Vec::new();
        match frame {
            Frame::Ping(p) => {
                self.last_seen = now;
                acts.push(SessionAction::ReplyPong(p));
            },
            Frame::Pong(_) => {
                self.last_seen = now;
            },
            Frame::Text(t) => {
                return self.handle_text(t.as_str());
            },
            Frame::Binary(_) => {},
            Frame::Close => {
                self.state = SessionState::Disconnecting;
                acts.push(SessionAction::CloseConnection);
            },
            Frame::Continuation => {
                self.state = SessionState::Disconnecting;
                acts.push(SessionAction::CloseConnection);
            },
            Frame::Nop => {},
            Frame::Error => {
                self.state = SessionState::Disconnecting;
                acts.push(SessionAction::CloseConnection);
            },
        }
        acts
    }

    /// Handles one text frame: dispatches a command or forwards a chat
    /// message to the current room.
    fn handle_text(&mut self, text: &str) -> (acts: Vec<SessionAction>)
        requires
            old(self).state == SessionState::Active,
        ensures
            text_outcome(*old(self), *final(self), text@, acts@),
    {
        let m = trim(text);
        let mut acts: Vec<SessionAction> = Vec::new();
        if m.unicode_len() > 0 && m.get_char(0) == '/' {
            match parse_command(m) {
                Command::List => {
                    acts.push(SessionAction::ListRooms);
                },
                Command::Join(room) => {
                    let confirm = join_confirm_text(self.id);
                    acts.push(SessionAction::JoinRoom { id: self.id, room: room.clone() });
                    acts.push(SessionAction::Reply(confirm));
                    self.room = room;
                },
                Command::MissingRoomArg => {
                    acts.push(SessionAction::Reply(String::from_str("!!! room name is required")));
                },
                Command::Name(value) => {
                    self.name = Some(value);
                },
                Command::MissingNameArg => {
                    acts.push(SessionAction::Reply(String::from_str("!!! name is required")));
                },
                Command::Unknown(t) => {
                    let mut msg = String::from_str("!!! unknown command: ");
                    msg.append(t.as_str());
                    acts.push(SessionAction::Reply(msg));
                },
            }
        } else {
            let composed: String = match &self.name {
                Some(n) => {
                    let mut c = n.clone();
                    c.append(": ");
                    c.append(m);
                    c
                },
                None => m.to_owned(),
            };
            acts.push(
                SessionAction::SendChat { id: self.id, room: self.room.clone(), text: composed },
            );
        }
        acts
    }
}

/// Builds the `/join` confirmation as text.
fn join_confirm_text(id: u64) -> (r: String)
    ensures
        r@ == join_confirm(id),
{
    let mut s = String::from_str("user ");
    let digits = u64_to_string(id);
    s.append(digits.as_str());
    s.append(" joined");
    proof {
        assert(s@ =~= join_confirm(id));
    }
    s
}

} // verus!
