use chat_core::broker::ChatBroker;
use chat_core::broker::Delivery;

fn texts(ds: &[Delivery]) -> Vec<String> {
    ds.iter().map(|d| d.text.clone()).collect()
}

fn recipients(ds: &[Delivery]) -> Vec<u64> {
    let mut ids: Vec<u64> = ds.iter().map(|d| d.to).collect();
    ids.sort();
    ids
}

#[test]
fn fresh_broker_lists_only_main() {
    let b = ChatBroker::new();
    let names = b.list_rooms();
    assert_eq!(names.len(), 1);
    assert_eq!(names[0], "Main");
}

#[test]
fn connect_ids_are_unique() {
    let mut b = ChatBroker::new();
    let mut ids: Vec<u64> = Vec::new();
    for _ in 0..50 {
        let (id, _) = b.connect();
        assert!(!ids.contains(&id), "identifier {} handed out twice", id);
        ids.push(id);
    }
}

#[test]
fn connect_announces_to_existing_main_members() {
    let mut b = ChatBroker::new();
    let (a, ds) = b.connect();
    // nobody was in "Main" yet
    assert!(ds.is_empty());
    let (bb, ds) = b.connect();
    assert_ne!(a, bb);
    // only the first session is notified, with the exact notice text
    assert_eq!(recipients(&ds), vec![a]);
    assert_eq!(ds[0].text, format!("user with id {} joined the Main room.", bb));
}

#[test]
fn new_session_is_only_in_main() {
    let mut b = ChatBroker::new();
    let (a, _) = b.connect();
    b.join(a, "elsewhere");
    let (c, _) = b.connect();
    // a message to "Main" from `a` must reach the new session ...
    let ds = b.send(a, "Main", "ping");
    assert_eq!(recipients(&ds), vec![c]);
    // ... and a message to the other room must not
    let ds = b.send(a, "elsewhere", "ping");
    assert!(ds.iter().all(|d| d.to != c));
}

#[test]
fn send_reaches_everyone_but_the_sender() {
    let mut b = ChatBroker::new();
    let (a, _) = b.connect();
    let (b2, _) = b.connect();
    let (c, _) = b.connect();
    let ds = b.send(a, "Main", "hello");
    let mut got = recipients(&ds);
    let mut expected = vec![b2, c];
    expected.sort();
    got.sort();
    assert_eq!(got, expected);
    assert!(ds.iter().all(|d| d.to != a));
    assert!(ds.iter().all(|d| d.text == "hello"));
}

#[test]
fn send_to_unknown_room_is_a_noop() {
    let mut b = ChatBroker::new();
    let (a, _) = b.connect();
    let ds = b.send(a, "nowhere", "hello");
    assert!(ds.is_empty());
}

#[test]
fn send_from_unknown_session_is_a_noop() {
    let mut b = ChatBroker::new();
    let (_a, _) = b.connect();
    let ds = b.send(424242, "Main", "hello");
    assert!(ds.is_empty());
}

#[test]
fn join_moves_and_announces() {
    let mut b = ChatBroker::new();
    let (a, _) = b.connect();
    let (b2, _) = b.connect();
    let (c, _) = b.connect();
    // c goes first, so "X" exists and has a member
    b.join(c, "X");
    // now a moves from "Main" to "X"
    let (left, entered) = b.join(a, "X");
    // the remaining member of "Main" hears the departure
    assert_eq!(recipients(&left), vec![b2]);
    assert_eq!(left[0].text, format!("User {} disconnected", a));
    // the existing member of "X" hears the arrival
    assert_eq!(recipients(&entered), vec![c]);
    assert_eq!(entered[0].text, format!("User {} connected", a));
    // a is a member of "X" ...
    let ds = b.send(c, "X", "x?");
    assert_eq!(recipients(&ds), vec![a]);
    // ... and of no other room
    let ds = b.send(b2, "Main", "m?");
    assert!(ds.iter().all(|d| d.to != a));
}

#[test]
fn join_creates_rooms_lazily_and_keeps_them() {
    let mut b = ChatBroker::new();
    let (a, _) = b.connect();
    b.join(a, "lobby");
    let mut names = b.list_rooms();
    names.sort();
    assert_eq!(names, vec!["Main".to_string(), "lobby".to_string()]);
    // leaving the room empty does not delete it
    b.join(a, "Main");
    let mut names = b.list_rooms();
    names.sort();
    assert_eq!(names, vec!["Main".to_string(), "lobby".to_string()]);
}

#[test]
fn join_from_unknown_session_is_a_noop() {
    let mut b = ChatBroker::new();
    let (_a, _) = b.connect();
    let (left, entered) = b.join(999999, "ghost-room");
    assert!(left.is_empty());
    assert!(entered.is_empty());
    // the room was not created
    let names = b.list_rooms();
    assert_eq!(names, vec!["Main".to_string()]);
}

#[test]
fn disconnect_removes_everywhere_and_announces() {
    let mut b = ChatBroker::new();
    let (a, _) = b.connect();
    let (b2, _) = b.connect();
    let (c, _) = b.connect();
    let ds = b.disconnect(a);
    // the remaining members of "Main" hear it, with the exact text
    let mut got = recipients(&ds);
    let mut expected = vec![b2, c];
    expected.sort();
    got.sort();
    assert_eq!(got, expected);
    assert_eq!(texts(&ds)[0], format!("user with id {} disconnected.", a));
    // a receives nothing any more
    let ds = b.send(b2, "Main", "still there?");
    assert_eq!(recipients(&ds), vec![c]);
    // subsequent operations referencing a are no-ops
    assert!(b.send(a, "Main", "zombie").is_empty());
    let (left, entered) = b.join(a, "Main");
    assert!(left.is_empty() && entered.is_empty());
}

#[test]
fn disconnect_unknown_session_is_a_noop() {
    let mut b = ChatBroker::new();
    let (_a, _) = b.connect();
    let ds = b.disconnect(123456);
    assert!(ds.is_empty());
    assert_eq!(b.list_rooms(), vec!["Main".to_string()]);
}

#[test]
fn main_is_listed_even_after_other_rooms_appear() {
    let mut b = ChatBroker::new();
    let (a, _) = b.connect();
    b.join(a, "alpha");
    b.join(a, "beta");
    let names = b.list_rooms();
    assert!(names.iter().any(|n| n == "Main"));
    assert!(names.iter().any(|n| n == "alpha"));
    assert!(names.iter().any(|n| n == "beta"));
}

#[test]
fn rejoining_the_same_room_reannounces() {
    let mut b = ChatBroker::new();
    let (a, _) = b.connect();
    let (b2, _) = b.connect();
    let (left, entered) = b.join(a, "Main");
    // a leaves "Main" and re-enters it; b2 hears both notices
    assert_eq!(recipients(&left), vec![b2]);
    assert_eq!(left[0].text, format!("User {} disconnected", a));
    assert_eq!(recipients(&entered), vec![b2]);
    assert_eq!(entered[0].text, format!("User {} connected", a));
    // a is still a member
    let ds = b.send(b2, "Main", "hi");
    assert_eq!(recipients(&ds), vec![a]);
}

#[test]
fn default_is_a_fresh_broker() {
    let b = ChatBroker::default();
    assert_eq!(b.list_rooms(), vec!["Main".to_string()]);
}
