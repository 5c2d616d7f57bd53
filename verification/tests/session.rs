use chat_core::broker::ChatBroker;
use chat_core::session::CLIENT_TIMEOUT_MS;
use chat_core::session::Frame;
use chat_core::session::Session;
use chat_core::session::SessionAction;
use chat_core::session::SessionState;

fn text_frame(s: &str) -> Frame {
    Frame::Text(s.to_string())
}

#[test]
fn lifecycle_reaches_active() {
    let mut s = Session::new(0);
    assert_eq!(s.state, SessionState::Connecting);
    s.on_connected(7);
    assert_eq!(s.state, SessionState::Active);
    assert_eq!(s.id, 7);
    assert_eq!(s.room, "Main");
    assert!(s.name.is_none());
}

#[test]
fn heartbeat_pings_within_window_and_stops_after_it() {
    let mut s = Session::new(1000);
    s.on_connected(1);
    let act = s.on_heartbeat_tick(1000 + CLIENT_TIMEOUT_MS);
    assert!(matches!(act, SessionAction::SendPing));
    assert_eq!(s.state, SessionState::Active);
    let act = s.on_heartbeat_tick(1000 + CLIENT_TIMEOUT_MS + 1);
    assert!(matches!(act, SessionAction::CloseConnection));
    assert_eq!(s.state, SessionState::Disconnecting);
}

#[test]
fn pong_refreshes_the_liveness_window() {
    let mut s = Session::new(0);
    s.on_connected(1);
    let acts = s.handle_frame(Frame::Pong(Vec::new()), 9000);
    assert!(acts.is_empty());
    assert_eq!(s.last_seen, 9000);
    // 9000 + timeout still inside the refreshed window
    let act = s.on_heartbeat_tick(9000 + CLIENT_TIMEOUT_MS);
    assert!(matches!(act, SessionAction::SendPing));
}

#[test]
fn ping_is_answered_with_its_payload() {
    let mut s = Session::new(0);
    s.on_connected(1);
    let acts = s.handle_frame(Frame::Ping(vec![1, 2, 3]), 5);
    assert_eq!(acts.len(), 1);
    assert!(matches!(&acts[0], SessionAction::ReplyPong(p) if p == &vec![1, 2, 3]));
    assert_eq!(s.last_seen, 5);
}

#[test]
fn close_and_errors_tear_down() {
    for frame in [Frame::Close, Frame::Continuation, Frame::Error] {
        let mut s = Session::new(0);
        s.on_connected(1);
        let acts = s.handle_frame(frame, 0);
        assert_eq!(acts.len(), 1);
        assert!(matches!(acts[0], SessionAction::CloseConnection));
        assert_eq!(s.state, SessionState::Disconnecting);
    }
}

#[test]
fn binary_frames_are_ignored() {
    let mut s = Session::new(0);
    s.on_connected(1);
    let acts = s.handle_frame(Frame::Binary(vec![0xde, 0xad]), 0);
    assert!(acts.is_empty());
    assert_eq!(s.state, SessionState::Active);
}

#[test]
fn stopping_reports_to_the_broker_exactly_once() {
    let mut s = Session::new(0);
    s.on_connected(42);
    let act = s.on_stopping();
    assert!(matches!(act, Some(SessionAction::Disconnect { id: 42 })));
    assert_eq!(s.state, SessionState::Closed);
    let act = s.on_stopping();
    assert!(act.is_none());
}

#[test]
fn chat_text_is_forwarded_to_the_current_room() {
    let mut s = Session::new(0);
    s.on_connected(3);
    let acts = s.handle_frame(text_frame("  hello world  "), 0);
    assert_eq!(acts.len(), 1);
    assert!(matches!(
        &acts[0],
        SessionAction::SendChat { id: 3, room, text } if room == "Main" && text == "hello world"
    ));
}

#[test]
fn join_command_updates_room_and_confirms() {
    let mut s = Session::new(0);
    s.on_connected(3);
    let acts = s.handle_frame(text_frame("/join the lobby"), 0);
    assert_eq!(s.room, "the lobby");
    assert_eq!(acts.len(), 2);
    assert!(matches!(
        &acts[0],
        SessionAction::JoinRoom { id: 3, room } if room == "the lobby"
    ));
    assert!(matches!(&acts[1], SessionAction::Reply(x) if x == "user 3 joined"));
}

#[test]
fn join_without_argument_is_an_inline_error() {
    let mut s = Session::new(0);
    s.on_connected(3);
    let acts = s.handle_frame(text_frame("/join"), 0);
    assert_eq!(s.room, "Main");
    assert_eq!(acts.len(), 1);
    assert!(matches!(&acts[0], SessionAction::Reply(x) if x == "!!! room name is required"));
    assert_eq!(s.state, SessionState::Active);
}

#[test]
fn name_command_sets_the_display_name() {
    let mut s = Session::new(0);
    s.on_connected(3);
    let acts = s.handle_frame(text_frame("/name Ann"), 0);
    assert!(acts.is_empty());
    assert_eq!(s.name.as_deref(), Some("Ann"));
    let acts = s.handle_frame(text_frame("hello"), 0);
    assert!(matches!(
        &acts[0],
        SessionAction::SendChat { text, .. } if text == "Ann: hello"
    ));
}

#[test]
fn name_without_argument_is_an_inline_error() {
    let mut s = Session::new(0);
    s.on_connected(3);
    let acts = s.handle_frame(text_frame("/name"), 0);
    assert!(s.name.is_none());
    assert!(matches!(&acts[0], SessionAction::Reply(x) if x == "!!! name is required"));
}

#[test]
fn unknown_commands_are_reported_and_harmless() {
    let mut s = Session::new(0);
    s.on_connected(3);
    let acts = s.handle_frame(text_frame("/frobnicate now"), 0);
    assert_eq!(acts.len(), 1);
    assert!(matches!(
        &acts[0],
        SessionAction::Reply(x) if x == "!!! unknown command: /frobnicate now"
    ));
    assert_eq!(s.state, SessionState::Active);
    assert_eq!(s.room, "Main");
}

#[test]
fn list_command_asks_the_broker() {
    let mut s = Session::new(0);
    s.on_connected(3);
    let acts = s.handle_frame(text_frame("/list"), 0);
    assert_eq!(acts.len(), 1);
    assert!(matches!(acts[0], SessionAction::ListRooms));
}

// The full story of one chatting client next to a bystander: join a
// room, speak there, and check who received what.
#[test]
fn scenario_join_then_chat_reaches_only_the_room() {
    let mut broker = ChatBroker::new();

    // three clients connect; all start in "Main"
    let (a, _) = broker.connect();
    let mut sa = Session::new(0);
    sa.on_connected(a);
    let (b, _) = broker.connect();
    let mut sb = Session::new(0);
    sb.on_connected(b);
    let (c, _) = broker.connect();

    // b moves to "lobby" first so someone is there to listen
    let acts = sb.handle_frame(text_frame("/join lobby"), 0);
    assert!(matches!(&acts[0], SessionAction::JoinRoom { .. }));
    broker.join(b, "lobby");

    // a sends /join lobby, then chats
    let acts = sa.handle_frame(text_frame("/join lobby"), 0);
    assert!(matches!(&acts[0], SessionAction::JoinRoom { .. }));
    let (_left, _entered) = broker.join(a, "lobby");

    let acts = sa.handle_frame(text_frame("hi there"), 0);
    let mut chat_deliveries = Vec::new();
    for act in &acts {
        if let SessionAction::SendChat { id, room, text } = act {
            chat_deliveries = broker.send(*id, room, text);
        }
    }
    // the second client in "lobby" receives exactly "hi there"
    assert_eq!(chat_deliveries.len(), 1);
    assert_eq!(chat_deliveries[0].to, b);
    assert_eq!(chat_deliveries[0].text, "hi there");
    // the client remaining in "Main" never saw the chat text
    assert!(chat_deliveries.iter().all(|d| d.to != c));
}

// A named client speaking in "Main": members receive the prefixed line.
#[test]
fn scenario_named_chat_in_main() {
    let mut broker = ChatBroker::new();
    let (a, _) = broker.connect();
    let mut sa = Session::new(0);
    sa.on_connected(a);
    let (b, _) = broker.connect();

    let acts = sa.handle_frame(text_frame("/name Ann"), 0);
    assert!(acts.is_empty());
    let acts = sa.handle_frame(text_frame("hello"), 0);
    let mut deliveries = Vec::new();
    for act in &acts {
        if let SessionAction::SendChat { id, room, text } = act {
            deliveries = broker.send(*id, room, text);
        }
    }
    assert_eq!(deliveries.len(), 1);
    assert_eq!(deliveries[0].to, b);
    assert_eq!(deliveries[0].text, "Ann: hello");
}

// A silent client times out, disconnects itself, and the broker no
// longer routes anything to it.
#[test]
fn scenario_heartbeat_timeout_disconnects() {
    let mut broker = ChatBroker::new();
    let (a, _) = broker.connect();
    let mut sa = Session::new(1000);
    sa.on_connected(a);
    let (b, _) = broker.connect();

    // no pong for longer than the timeout window
    let act = sa.on_heartbeat_tick(1000 + CLIENT_TIMEOUT_MS + 500);
    assert!(matches!(act, SessionAction::CloseConnection));
    assert_eq!(sa.state, SessionState::Disconnecting);

    // the transport stops the session, which reports to the broker
    let act = sa.on_stopping();
    let Some(SessionAction::Disconnect { id }) = act else {
        panic!("expected a disconnect request");
    };
    let notices = broker.disconnect(id);
    assert_eq!(notices.len(), 1);
    assert_eq!(notices[0].to, b);

    // the broker reflects the absence: a receives nothing any more
    let ds = broker.send(b, "Main", "anyone?");
    assert!(ds.is_empty());
}
