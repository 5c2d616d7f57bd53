//! The chat broker: the single serialized authority over the session
//! registry and the room directory.
//!
//! The broker never touches a connection. Each operation mutates the
//! two maps and returns the exact list of text deliveries the caller
//! must perform, so every routing rule — who receives a chat line, who
//! receives a join or leave notice, and who never does — is stated in
//! the contracts below and proved.
//!
//! A default room named `"Main"` exists from construction on and is
//! never deleted; other rooms are created lazily on first join and
//! persist when empty. A session occupies at most one room at a time,
//! and every room member is a registered session: that is the
//! well-formedness predicate `wf`, established by `new` and preserved
//! by every operation.

use vstd::prelude::*;

use crate::textfmt::dec_digits;
use crate::textfmt::u64_to_string;

verus! {

/// One pending text delivery: `text` is to be pushed to the session
/// whose identifier is `to`. Performing the push (a non-blocking
/// enqueue on the session's connection) is the transport layer's job.
pub struct Delivery {
    pub to: u64,
    pub text: String,
}

/// A named room and its member sessions (no duplicates, unordered).
struct Room {
    name: String,
    members: Vec<u64>,
}

/// The coordinator state: registered session identifiers, the room
/// directory, and the next identifier to hand out.
pub struct ChatBroker {
    next_id: u64,
    sessions: Vec<u64>,
    rooms: Vec<Room>,
}

/// `ds` is a broadcast of `text` to exactly the sessions in `targets`:
/// every delivery goes to a target and carries `text`, every target
/// receives a delivery, and no session receives it twice.
pub open spec fn broadcast_to(ds: Seq<Delivery>, targets: Set<u64>, text: Seq<char>) -> bool {
    &&& forall|k: int|
        0 <= k < ds.len() ==> targets.contains(#[trigger] ds[k].to) && ds[k].text@ == text
    &&& forall|s: u64| #[trigger] targets.contains(s) ==> exists|k: int| 0 <= k < ds.len() && ds[k].to == s
    &&& forall|k: int, l: int| 0 <= k < l < ds.len() ==> ds[k].to != ds[l].to
}

/// Notice broadcast to the members of "Main" when a new session connects.
pub open spec fn connect_notice(id: u64) -> Seq<char> {
    "user with id "@ + dec_digits(id as nat) + " joined the Main room."@
}

/// Notice broadcast to the remaining members of the room a
/// disconnecting session occupied.
pub open spec fn disconnect_notice(id: u64) -> Seq<char> {
    "user with id "@ + dec_digits(id as nat) + " disconnected."@
}

/// Notice broadcast to the remaining members of a room a session
/// leaves by joining another room.
pub open spec fn leave_notice(id: u64) -> Seq<char> {
    "User "@ + dec_digits(id as nat) + " disconnected"@
}

/// Notice broadcast to the existing members of the room a session joins.
pub open spec fn join_notice(id: u64) -> Seq<char> {
    "User "@ + dec_digits(id as nat) + " connected"@
}

/// Room names are pairwise distinct.
spec fn rooms_named_once(rooms: Seq<Room>) -> bool {
    forall|i: int, j: int| 0 <= i < j < rooms.len() ==> rooms[i].name@ != rooms[j].name@
}

/// No room lists a member twice.
spec fn rooms_members_nodup(rooms: Seq<Room>) -> bool {
    forall|i: int| 0 <= i < rooms.len() ==> (#[trigger] rooms[i].members@).no_duplicates()
}

/// No session is a member of two rooms.
spec fn rooms_disjoint(rooms: Seq<Room>) -> bool {
    forall|i: int, j: int, s: u64|
        #![trigger rooms[i].members@.contains(s), rooms[j].members@.contains(s)]
        0 <= i < rooms.len() && 0 <= j < rooms.len() && i != j && rooms[i].members@.contains(s)
            ==> !rooms[j].members@.contains(s)
}

/// Every room member is a registered session.
spec fn rooms_members_registered(rooms: Seq<Room>, sessions: Seq<u64>) -> bool {
    forall|i: int, s: u64|
        0 <= i < rooms.len() && #[trigger] rooms[i].members@.contains(s) ==> sessions.contains(s)
}

/// All registered identifiers were allocated below `next`.
spec fn sessions_bounded(sessions: Seq<u64>, next: u64) -> bool {
    forall|k: int| 0 <= k < sessions.len() ==> #[trigger] sessions[k] < next
}

impl ChatBroker {
    /// The set of currently registered session identifiers.
    pub closed spec fn registered(self) -> Set<u64> {
        self.sessions@.to_set()
    }

    /// The names of all known rooms, in directory order.
    pub closed spec fn room_names(self) -> Seq<Seq<char>> {
        self.rooms@.map_values(|r: Room| r.name@)
    }

    /// Whether a room of this name exists.
    pub closed spec fn has_room(self, name: Seq<char>) -> bool {
        exists|i: int| 0 <= i < self.rooms@.len() && self.rooms@[i].name@ == name
    }

    /// The directory index of the room of this name.
    spec fn room_idx(self, name: Seq<char>) -> int {
        choose|i: int| 0 <= i < self.rooms@.len() && self.rooms@[i].name@ == name
    }

    /// The member sessions of the room of this name; the empty set if
    /// no such room exists.
    pub closed spec fn members_of(self, name: Seq<char>) -> Set<u64> {
        if self.has_room(name) {
            self.rooms@[self.room_idx(name)].members@.to_set()
        } else {
            Set::empty()
        }
    }

    /// How many fresh identifiers the 64-bit counter can still hand
    /// out (a machine limit; never exhausted in practice).
    pub closed spec fn allocations_left(self) -> int {
        u64::MAX - self.next_id
    }

    /// A fresh identifier can still be allocated.
    pub open spec fn can_allocate(self) -> bool {
        self.allocations_left() > 0
    }

    /// Well-formedness of the broker state: "Main" is the first room,
    /// room names are distinct, no duplicate members, each session
    /// occupies at most one room, every member is registered, and
    /// identifiers are unique and below the allocation counter.
    pub closed spec fn wf(self) -> bool {
        &&& self.rooms@.len() >= 1
        &&& self.rooms@[0].name@ == "Main"@
        &&& rooms_named_once(self.rooms@)
        &&& rooms_members_nodup(self.rooms@)
        &&& rooms_disjoint(self.rooms@)
        &&& rooms_members_registered(self.rooms@, self.sessions@)
        &&& self.sessions@.no_duplicates()
        &&& sessions_bounded(self.sessions@, self.next_id)
    }

    /// A well-formed broker always knows the room "Main".
    pub proof fn lemma_main_exists(self)
        requires
            self.wf(),
        ensures
            self.has_room("Main"@),
            self.room_names().contains("Main"@),
    {
        assert(self.rooms@[0].name@ == "Main"@);
        assert(self.room_names()[0] == "Main"@);
    }

    /// In a well-formed broker, a session is a member of at most one
    /// room: membership in one room excludes membership in every other.
    pub proof fn lemma_member_of_at_most_one_room(self, s: u64, n1: Seq<char>, n2: Seq<char>)
        requires
            self.wf(),
            n1 != n2,
            self.members_of(n1).contains(s),
        ensures
            !self.members_of(n2).contains(s),
    {
        if self.has_room(n2) && self.members_of(n2).contains(s) {
            let i = self.room_idx(n1);
            let j = self.room_idx(n2);
            assert(self.rooms@[i].members@.contains(s));
            assert(self.rooms@[j].members@.contains(s));
        }
    }

    /// In a well-formed broker, every room member is a registered session.
    pub proof fn lemma_member_is_registered(self, s: u64, n: Seq<char>)
        requires
            self.wf(),
            self.members_of(n).contains(s),
        ensures
            self.registered().contains(s),
    {
        let i = self.room_idx(n);
        assert(self.rooms@[i].members@.contains(s));
    }

    /// Pins the room of a given directory index: its name resolves back
    /// to that index, and `members_of` its name is exactly its member set.
    proof fn lemma_room_at(self, i: int)
        requires
            rooms_named_once(self.rooms@),
            0 <= i < self.rooms@.len(),
        ensures
            self.has_room(self.rooms@[i].name@),
            self.room_idx(self.rooms@[i].name@) == i,
            self.members_of(self.rooms@[i].name@) == self.rooms@[i].members@.to_set(),
    {
        let n = self.rooms@[i].name@;
        assert(self.has_room(n));
        let j = self.room_idx(n);
        assert(0 <= j < self.rooms@.len() && self.rooms@[j].name@ == n);
        if i != j {
            assert(false);
        }
    }

    /// A fresh broker: no sessions, the single empty room "Main".
    pub fn new() -> (b: ChatBroker)
        ensures
            b.wf(),
            b.allocations_left() == u64::MAX - 1,
            b.registered() == Set::<u64>::empty(),
            b.room_names() == seq!["Main"@],
            b.members_of("Main"@) == Set::<u64>::empty(),
            forall|n: Seq<char>| n != "Main"@ ==> !b.has_room(n),
    {
        let main = Room { name: String::from_str("Main"), members: Vec::new() };
        let mut rooms: Vec<Room> = Vec::new();
        rooms.push(main);
        let b = ChatBroker { next_id: 1, sessions: Vec::new(), rooms };
        proof {
            assert(b.rooms@.len() == 1);
            assert(b.rooms@[0].name@ == "Main"@);
            b.lemma_room_at(0);
            assert(b.registered() =~= Set::<u64>::empty());
            assert(b.members_of("Main"@) =~= Set::<u64>::empty());
            assert(b.room_names() =~= seq!["Main"@]);
            assert forall|n: Seq<char>| n != "Main"@ implies !b.has_room(n) by {
                if b.has_room(n) {
                    let i = b.room_idx(n);
                    assert(i == 0);
                }
            }
        }
        b
    }
}

impl ChatBroker {
    /// Whether `id` is a registered session.
    pub fn is_registered(&self, id: u64) -> (r: bool)
        ensures
            r == self.registered().contains(id),
    {
        let n = self.sessions.len();
        let mut k: usize = 0;
        while k < n
            invariant
                n == self.sessions@.len(),
                0 <= k <= n,
                forall|x: int| 0 <= x < k ==> self.sessions@[x] != id,
            decreases n - k,
        {
            if self.sessions[k] == id {
                return true;
            }
            k += 1;
        }
        proof {
            if self.sessions@.contains(id) {
                let x = choose|x: int| 0 <= x < self.sessions@.len() && self.sessions@[x] == id;
                assert(false);
            }
        }
        false
    }

    /// The directory index of the room named `name`, if it exists.
    fn find_room(&self, name: &str) -> (r: Option<usize>)
        ensures
            match r {
                Some(i) => i < self.rooms@.len() && self.rooms@[i as int].name@ == name@,
                None => !self.has_room(name@),
            },
    {
        let wanted: String = name.to_owned();
        let n = self.rooms.len();
        let mut k: usize = 0;
        while k < n
            invariant
                n == self.rooms@.len(),
                wanted@ == name@,
                0 <= k <= n,
                forall|x: int| 0 <= x < k ==> self.rooms@[x].name@ != name@,
            decreases n - k,
        {
            if self.rooms[k].name == wanted {
                return Some(k);
            }
            k += 1;
        }
        None
    }

    /// The directory index of the room `id` occupies, if any.
    fn find_occupied_room(&self, id: u64) -> (r: Option<usize>)
        ensures
            match r {
                Some(i) => i < self.rooms@.len() && self.rooms@[i as int].members@.contains(id),
                None => forall|i: int|
                    0 <= i < self.rooms@.len() ==> !(#[trigger] self.rooms@[i].members@.contains(id)),
            },
    {
        let n = self.rooms.len();
        let mut k: usize = 0;
        while k < n
            invariant
                n == self.rooms@.len(),
                0 <= k <= n,
                forall|x: int| 0 <= x < k ==> !(#[trigger] self.rooms@[x].members@.contains(id)),
            decreases n - k,
        {
            if room_member_index(&self.rooms[k], id).is_some() {
                return Some(k);
            }
            k += 1;
        }
        None
    }
}

/// The position of `id` in the room's member list, if it is a member.
fn room_member_index(room: &Room, id: u64) -> (r: Option<usize>)
    ensures
        match r {
            Some(k) => k < room.members@.len() && room.members@[k as int] == id,
            None => !room.members@.contains(id),
        },
{
    let n = room.members.len();
    let mut k: usize = 0;
    while k < n
        invariant
            n == room.members@.len(),
            0 <= k <= n,
            forall|x: int| 0 <= x < k ==> room.members@[x] != id,
        decreases n - k,
    {
        if room.members[k] == id {
            return Some(k);
        }
        k += 1;
    }
    proof {
        if room.members@.contains(id) {
            let x = choose|x: int| 0 <= x < room.members@.len() && room.members@[x] == id;
            assert(false);
        }
    }
    None
}

/// Builds the delivery list for one broadcast: `text` to every member
/// of `room` except `skip`.
#[verifier::rlimit(100)]
fn broadcast_except(room: &Room, skip: u64, text: &str) -> (ds: Vec<Delivery>)
    requires
        room.members@.no_duplicates(),
    ensures
        broadcast_to(ds@, room.members@.to_set().remove(skip), text@),
{
    let n = room.members.len();
    let mut ds: Vec<Delivery> = Vec::new();
    let mut k: usize = 0;
    while k < n
        invariant
            n == room.members@.len(),
            room.members@.no_duplicates(),
            0 <= k <= n,
            forall|x: int|
                0 <= x < ds@.len()
                    ==> room.members@.take(k as int).contains(#[trigger] ds@[x].to)
                    && ds@[x].to != skip && ds@[x].text@ == text@,
            forall|s: u64|
                #[trigger] room.members@.take(k as int).contains(s) && s != skip
                    ==> exists|x: int| 0 <= x < ds@.len() && ds@[x].to == s,
            forall|x: int, y: int| 0 <= x < y < ds@.len() ==> ds@[x].to != ds@[y].to,
        decreases n - k,
    {
        let m = room.members[k];
        let ghost pre = ds@;
        if m != skip {
            ds.push(Delivery { to: m, text: text.to_owned() });
        }
        proof {
            let taken = room.members@.take(k as int);
            let taken1 = room.members@.take(k as int + 1);
            assert(taken1 =~= taken.push(room.members@[k as int]));
            assert forall|v: u64| taken.contains(v) implies taken1.contains(v) by {
                let p = choose|p: int| 0 <= p < taken.len() && taken[p] == v;
                assert(taken1[p] == v);
            }
            if m == skip {
                assert(ds@ == pre);
                assert forall|x: int|
                    0 <= x < ds@.len() implies taken1.contains(#[trigger] ds@[x].to) && ds@[x].to
                    != skip && ds@[x].text@ == text@ by {
                    assert(taken.contains(ds@[x].to));
                }
                assert forall|s: u64|
                    #[trigger] taken1.contains(s) && s != skip implies exists|x: int|
                    0 <= x < ds@.len() && ds@[x].to == s by {
                    let p = choose|p: int| 0 <= p < taken1.len() && taken1[p] == s;
                    assert(p < k as int || s == m);
                    assert(taken[p] == s);
                    assert(taken.contains(s));
                    let x0 = choose|x: int| 0 <= x < pre.len() && pre[x].to == s;
                    assert(ds@[x0].to == s);
                }
            } else {
                assert(ds@ == pre.push(Delivery { to: m, text: ds@[pre.len() as int].text }));
                assert forall|x: int|
                    0 <= x < ds@.len() implies taken1.contains(#[trigger] ds@[x].to) && ds@[x].to
                    != skip && ds@[x].text@ == text@ by {
                    if x < pre.len() {
                        assert(ds@[x] == pre[x]);
                        assert(taken.contains(pre[x].to));
                    } else {
                        assert(x == pre.len());
                        assert(ds@[x].to == m);
                        assert(taken1[k as int] == m);
                    }
                }
                assert forall|s: u64|
                    #[trigger] taken1.contains(s) && s != skip implies exists|x: int|
                    0 <= x < ds@.len() && ds@[x].to == s by {
                    let p = choose|p: int| 0 <= p < taken1.len() && taken1[p] == s;
                    if p < k as int {
                        assert(taken[p] == s);
                        assert(taken.contains(s));
                        let x0 = choose|x: int| 0 <= x < pre.len() && pre[x].to == s;
                        assert(ds@[x0].to == s);
                    } else {
                        assert(s == m);
                        assert(ds@[pre.len() as int].to == s);
                    }
                }
                // the new recipient is not among the earlier ones
                assert forall|x: int| 0 <= x < pre.len() implies pre[x].to != m by {
                    if pre[x].to == m {
                        let p = choose|p: int| 0 <= p < taken.len() && taken[p] == m;
                        assert(room.members@[p] == room.members@[k as int]);
                    }
                }
                assert forall|x: int, y: int| 0 <= x < y < ds@.len() implies ds@[x].to
                    != ds@[y].to by {
                    if y == pre.len() {
                        assert(ds@[x].to == pre[x].to);
                        assert(ds@[y].to == m);
                    } else {
                        assert(ds@[x].to == pre[x].to && ds@[y].to == pre[y].to);
                    }
                }
            }
        }
        k += 1;
    }
    proof {
        assert(room.members@.take(n as int) =~= room.members@);
        let targets = room.members@.to_set().remove(skip);
        assert forall|s: u64| #[trigger] targets.contains(s) implies exists|x: int|
            0 <= x < ds@.len() && ds@[x].to == s by {
            assert(room.members@.contains(s) && s != skip);
        }
    }
    ds
}

/// Appending a fresh element keeps a sequence duplicate-free and
/// inserts it into the element set.
proof fn lemma_push_fresh(s: Seq<u64>, v: u64)
    requires
        s.no_duplicates(),
        !s.contains(v),
    ensures
        s.push(v).no_duplicates(),
        s.push(v).to_set() == s.to_set().insert(v),
        forall|x: u64| s.push(v).contains(x) <==> (s.contains(x) || x == v),
{
    assert forall|x: u64| s.push(v).contains(x) implies (s.contains(x) || x == v) by {
        let p = choose|p: int| 0 <= p < s.push(v).len() && s.push(v)[p] == x;
        if p < s.len() {
            assert(s[p] == x);
        }
    }
    assert forall|x: u64| (s.contains(x) || x == v) implies s.push(v).contains(x) by {
        if s.contains(x) {
            let p = choose|p: int| 0 <= p < s.len() && s[p] == x;
            assert(s.push(v)[p] == x);
        } else {
            assert(s.push(v)[s.len() as int] == x);
        }
    }
    assert forall|i: int, j: int| 0 <= i < j < s.push(v).len() implies s.push(v)[i]
        != s.push(v)[j] by {
        if j == s.len() {
            assert(s.push(v)[j] == v);
            assert(s.contains(s[i]));
        }
    }
    assert(s.push(v).to_set() =~= s.to_set().insert(v));
}

/// Removing position `i` of a duplicate-free sequence removes exactly
/// the element that stood there.
proof fn lemma_remove_at(s: Seq<u64>, i: int)
    requires
        s.no_duplicates(),
        0 <= i < s.len(),
    ensures
        s.remove(i).no_duplicates(),
        s.remove(i).to_set() == s.to_set().remove(s[i]),
        forall|x: u64| s.remove(i).contains(x) <==> (s.contains(x) && x != s[i]),
{
    let r = s.remove(i);
    assert forall|x: u64| r.contains(x) implies (s.contains(x) && x != s[i]) by {
        let p = choose|p: int| 0 <= p < r.len() && r[p] == x;
        if p < i {
            assert(s[p] == x);
        } else {
            assert(s[p + 1] == x);
        }
    }
    assert forall|x: u64| (s.contains(x) && x != s[i]) implies r.contains(x) by {
        let p = choose|p: int| 0 <= p < s.len() && s[p] == x;
        if p < i {
            assert(r[p] == x);
        } else {
            assert(r[p - 1] == x);
        }
    }
    assert forall|a: int, b: int| 0 <= a < b < r.len() implies r[a] != r[b] by {
        let a0: int = if a < i { a } else { a + 1 };
        let b0: int = if b < i { b } else { b + 1 };
        assert(r[a] == s[a0] && r[b] == s[b0]);
    }
    assert(r.to_set() =~= s.to_set().remove(s[i]));
}

/// Builds the connect notice as text.
fn connect_notice_text(id: u64) -> (r: String)
    ensures
        r@ == connect_notice(id),
{
    let mut s = String::from_str("user with id ");
    let digits = u64_to_string(id);
    s.append(digits.as_str());
    s.append(" joined the Main room.");
    proof {
        assert(s@ =~= connect_notice(id));
    }
    s
}

/// Builds the disconnect notice as text.
fn disconnect_notice_text(id: u64) -> (r: String)
    ensures
        r@ == disconnect_notice(id),
{
    let mut s = String::from_str("user with id ");
    let digits = u64_to_string(id);
    s.append(digits.as_str());
    s.append(" disconnected.");
    proof {
        assert(s@ =~= disconnect_notice(id));
    }
    s
}

/// Builds the leave notice as text.
fn leave_notice_text(id: u64) -> (r: String)
    ensures
        r@ == leave_notice(id),
{
    let mut s = String::from_str("User ");
    let digits = u64_to_string(id);
    s.append(digits.as_str());
    s.append(" disconnected");
    proof {
        assert(s@ =~= leave_notice(id));
    }
    s
}

/// Builds the join notice as text.
fn join_notice_text(id: u64) -> (r: String)
    ensures
        r@ == join_notice(id),
{
    let mut s = String::from_str("User ");
    let digits = u64_to_string(id);
    s.append(digits.as_str());
    s.append(" connected");
    proof {
        assert(s@ =~= join_notice(id));
    }
    s
}

impl ChatBroker {
    /// Registers a new session: allocates a fresh identifier, announces
    /// it to the current members of "Main", and inserts it into "Main".
    /// The identifier is unique among currently registered sessions;
    /// the new session is a member of "Main" and of no other room.
    pub fn connect(&mut self) -> (r: (u64, Vec<Delivery>))
        requires
            old(self).wf(),
            old(self).can_allocate(),
        ensures
            final(self).wf(),
            final(self).allocations_left() == old(self).allocations_left() - 1,
            !old(self).registered().contains(r.0),
            final(self).registered() == old(self).registered().insert(r.0),
            final(self).room_names() == old(self).room_names(),
            final(self).members_of("Main"@) == old(self).members_of("Main"@).insert(r.0),
            forall|n: Seq<char>|
                n != "Main"@ ==> final(self).members_of(n) == old(self).members_of(n)
                    && final(self).has_room(n) == old(self).has_room(n),
            forall|n: Seq<char>| n != "Main"@ ==> !final(self).members_of(n).contains(r.0),
            broadcast_to(r.1@, old(self).members_of("Main"@), connect_notice(r.0)),
    {
        let id = self.next_id;
        self.next_id = self.next_id + 1;
        let notice = connect_notice_text(id);
        proof {
            old(self).lemma_room_at(0);
            // the fresh identifier is registered nowhere yet
            assert(!old(self).sessions@.contains(id));
            assert forall|i: int|
                0 <= i < old(self).rooms@.len() implies !(#[trigger] old(
                self,
            ).rooms@[i].members@.contains(id)) by {
                if old(self).rooms@[i].members@.contains(id) {
                    assert(old(self).sessions@.contains(id));
                }
            }
            assert(old(self).rooms@[0].members@.to_set().remove(id) =~= old(self).members_of(
                "Main"@,
            ));
        }
        let ds = broadcast_except(&self.rooms[0], id, notice.as_str());
        self.sessions.push(id);
        let mut main_room = self.rooms.remove(0);
        main_room.members.push(id);
        self.rooms.insert(0, main_room);
        proof {
            let o = *old(self);
            let f = *self;
            assert(f.rooms@ =~= o.rooms@.update(0, f.rooms@[0]));
            assert(f.rooms@[0].name@ == "Main"@);
            assert(f.rooms@[0].members@ == o.rooms@[0].members@.push(id));
            lemma_push_fresh(o.sessions@, id);
            lemma_push_fresh(o.rooms@[0].members@, id);
            assert(f.registered() =~= o.registered().insert(id));
            // well-formedness of the new state
            assert(rooms_named_once(f.rooms@));
            assert(rooms_members_nodup(f.rooms@));
            assert forall|i: int, j: int, s: u64|
                #![trigger f.rooms@[i].members@.contains(s), f.rooms@[j].members@.contains(s)]
                0 <= i < f.rooms@.len() && 0 <= j < f.rooms@.len() && i != j
                    && f.rooms@[i].members@.contains(s) implies !f.rooms@[j].members@.contains(
                s,
            ) by {
                if i == 0 && s == id {
                    assert(!o.rooms@[j].members@.contains(s));
                } else {
                    assert(o.rooms@[i].members@.contains(s));
                    if f.rooms@[j].members@.contains(s) && j == 0 {
                        assert(o.rooms@[j].members@.contains(s) || s == id);
                        if s == id {
                            assert(o.sessions@.contains(s));
                        }
                    }
                }
            }
            assert forall|i: int, s: u64|
                0 <= i < f.rooms@.len() && #[trigger] f.rooms@[i].members@.contains(
                s,
            ) implies f.sessions@.contains(s) by {
                if i == 0 && s == id {
                } else {
                    assert(o.rooms@[i].members@.contains(s));
                    assert(o.sessions@.contains(s));
                }
            }
            assert(f.wf());
            // room views
            f.lemma_room_at(0);
            assert(f.members_of("Main"@) =~= o.members_of("Main"@).insert(id));
            assert(f.room_names() =~= o.room_names());
            assert forall|n: Seq<char>| n != "Main"@ implies f.members_of(n) == o.members_of(n)
                && f.has_room(n) == o.has_room(n) by {
                if o.has_room(n) {
                    let i = o.room_idx(n);
                    o.lemma_room_at(i);
                    assert(i != 0);
                    assert(f.rooms@[i].name@ == n);
                    f.lemma_room_at(i);
                    assert(f.members_of(n) == o.members_of(n));
                } else {
                    if f.has_room(n) {
                        let i = f.room_idx(n);
                        assert(o.rooms@[i].name@ == n);
                    }
                }
            }
            assert forall|n: Seq<char>| n != "Main"@ implies !f.members_of(n).contains(id) by {
                if f.members_of(n).contains(id) {
                    f.lemma_member_of_at_most_one_room(id, "Main"@, n);
                }
            }
        }
        (id, ds)
    }
}

impl ChatBroker {
    /// The position of `id` in the session registry, if registered.
    fn session_index(&self, id: u64) -> (r: Option<usize>)
        ensures
            match r {
                Some(k) => k < self.sessions@.len() && self.sessions@[k as int] == id,
                None => !self.registered().contains(id),
            },
    {
        let n = self.sessions.len();
        let mut k: usize = 0;
        while k < n
            invariant
                n == self.sessions@.len(),
                0 <= k <= n,
                forall|x: int| 0 <= x < k ==> self.sessions@[x] != id,
            decreases n - k,
        {
            if self.sessions[k] == id {
                return Some(k);
            }
            k += 1;
        }
        proof {
            if self.sessions@.contains(id) {
                let x = choose|x: int| 0 <= x < self.sessions@.len() && self.sessions@[x] == id;
                assert(false);
            }
        }
        None
    }

    /// Takes `id` out of the member list of room `idx`. Every other
    /// room is untouched, and afterwards no room lists `id`.
    fn remove_member(&mut self, idx: usize, id: u64)
        requires
            old(self).wf(),
            idx < old(self).rooms@.len(),
            old(self).rooms@[idx as int].members@.contains(id),
        ensures
            final(self).wf(),
            final(self).sessions@ == old(self).sessions@,
            final(self).next_id == old(self).next_id,
            final(self).rooms@.len() == old(self).rooms@.len(),
            forall|i: int|
                0 <= i < final(self).rooms@.len()
                    ==> (#[trigger] final(self).rooms@[i]).name@ == old(self).rooms@[i].name@,
            forall|i: int|
                0 <= i < final(self).rooms@.len() && i != idx
                    ==> #[trigger] final(self).rooms@[i] == old(self).rooms@[i],
            final(self).room_names() == old(self).room_names(),
            forall|n: Seq<char>| final(self).has_room(n) == old(self).has_room(n),
            forall|n: Seq<char>|
                #[trigger] final(self).members_of(n) == old(self).members_of(n).remove(id),
            forall|i: int|
                0 <= i < final(self).rooms@.len()
                    ==> !(#[trigger] final(self).rooms@[i].members@.contains(id)),
    {
        let mpos = match room_member_index(&self.rooms[idx], id) {
            Some(p) => p,
            None => {
                proof {
                    assert(false);
                }
                0
            },
        };
        let mut room = self.rooms.remove(idx);
        room.members.remove(mpos);
        self.rooms.insert(idx, room);
        proof {
            let o = *old(self);
            let f = *self;
            assert(f.rooms@ =~= o.rooms@.update(idx as int, f.rooms@[idx as int]));
            assert(f.rooms@[idx as int].members@ == o.rooms@[idx as int].members@.remove(
                mpos as int,
            ));
            lemma_remove_at(o.rooms@[idx as int].members@, mpos as int);
            assert(f.room_names() =~= o.room_names());
            assert forall|n: Seq<char>| f.has_room(n) == o.has_room(n) by {
                if o.has_room(n) {
                    let i = o.room_idx(n);
                    assert(f.rooms@[i].name@ == n);
                }
                if f.has_room(n) {
                    let i = f.room_idx(n);
                    assert(o.rooms@[i].name@ == n);
                }
            }
            // no room lists id any more
            assert forall|i: int|
                0 <= i < f.rooms@.len() implies !(#[trigger] f.rooms@[i].members@.contains(
                id,
            )) by {
                if i == idx {
                } else {
                    if f.rooms@[i].members@.contains(id) {
                        assert(o.rooms@[i].members@.contains(id));
                        assert(o.rooms@[idx as int].members@.contains(id));
                    }
                }
            }
            // member sets
            assert forall|n: Seq<char>| #[trigger] f.members_of(n) == o.members_of(n).remove(
                id,
            ) by {
                if o.has_room(n) {
                    let i = o.room_idx(n);
                    o.lemma_room_at(i);
                    assert(f.rooms@[i].name@ == n);
                    f.lemma_room_at(i);
                    if i == idx {
                        assert(f.members_of(n) =~= o.members_of(n).remove(id));
                    } else {
                        assert(!o.rooms@[i].members@.contains(id));
                        assert(f.members_of(n) =~= o.members_of(n).remove(id));
                    }
                } else {
                    assert(!f.has_room(n));
                    assert(f.members_of(n) =~= o.members_of(n).remove(id));
                }
            }
            // well-formedness
            assert(rooms_members_nodup(f.rooms@));
            assert forall|i: int, j: int, s: u64|
                #![trigger f.rooms@[i].members@.contains(s), f.rooms@[j].members@.contains(s)]
                0 <= i < f.rooms@.len() && 0 <= j < f.rooms@.len() && i != j
                    && f.rooms@[i].members@.contains(s) implies !f.rooms@[j].members@.contains(
                s,
            ) by {
                assert(o.rooms@[i].members@.contains(s));
                if f.rooms@[j].members@.contains(s) {
                    assert(o.rooms@[j].members@.contains(s));
                }
            }
            assert forall|i: int, s: u64|
                0 <= i < f.rooms@.len() && #[trigger] f.rooms@[i].members@.contains(
                s,
            ) implies f.sessions@.contains(s) by {
                assert(o.rooms@[i].members@.contains(s));
            }
            assert(f.wf());
        }
    }

    /// Adds `id`, currently a member of no room, to the member list of
    /// room `idx`.
    fn add_member(&mut self, idx: usize, id: u64)
        requires
            old(self).wf(),
            idx < old(self).rooms@.len(),
            old(self).registered().contains(id),
            forall|i: int|
                0 <= i < old(self).rooms@.len()
                    ==> !(#[trigger] old(self).rooms@[i].members@.contains(id)),
        ensures
            final(self).wf(),
            final(self).sessions@ == old(self).sessions@,
            final(self).next_id == old(self).next_id,
            final(self).room_names() == old(self).room_names(),
            forall|n: Seq<char>| final(self).has_room(n) == old(self).has_room(n),
            final(self).members_of(old(self).rooms@[idx as int].name@) == old(self).members_of(
                old(self).rooms@[idx as int].name@,
            ).insert(id),
            forall|n: Seq<char>|
                n != old(self).rooms@[idx as int].name@
                    ==> #[trigger] final(self).members_of(n) == old(self).members_of(n),
    {
        let mut room = self.rooms.remove(idx);
        room.members.push(id);
        self.rooms.insert(idx, room);
        proof {
            let o = *old(self);
            let f = *self;
            let rn = o.rooms@[idx as int].name@;
            assert(f.rooms@ =~= o.rooms@.update(idx as int, f.rooms@[idx as int]));
            assert(f.rooms@[idx as int].members@ == o.rooms@[idx as int].members@.push(id));
            lemma_push_fresh(o.rooms@[idx as int].members@, id);
            assert(f.room_names() =~= o.room_names());
            assert forall|n: Seq<char>| f.has_room(n) == o.has_room(n) by {
                if o.has_room(n) {
                    let i = o.room_idx(n);
                    assert(f.rooms@[i].name@ == n);
                }
                if f.has_room(n) {
                    let i = f.room_idx(n);
                    assert(o.rooms@[i].name@ == n);
                }
            }
            o.lemma_room_at(idx as int);
            f.lemma_room_at(idx as int);
            assert(f.members_of(rn) =~= o.members_of(rn).insert(id));
            assert forall|n: Seq<char>| n != rn implies #[trigger] f.members_of(n)
                == o.members_of(n) by {
                if o.has_room(n) {
                    let i = o.room_idx(n);
                    o.lemma_room_at(i);
                    assert(i != idx);
                    assert(f.rooms@[i].name@ == n);
                    f.lemma_room_at(i);
                } else {
                    assert(!f.has_room(n));
                }
            }
            // well-formedness
            assert(rooms_members_nodup(f.rooms@));
            assert forall|i: int, j: int, s: u64|
                #![trigger f.rooms@[i].members@.contains(s), f.rooms@[j].members@.contains(s)]
                0 <= i < f.rooms@.len() && 0 <= j < f.rooms@.len() && i != j
                    && f.rooms@[i].members@.contains(s) implies !f.rooms@[j].members@.contains(
                s,
            ) by {
                if i == idx && s == id {
                    assert(!o.rooms@[j].members@.contains(s));
                } else {
                    assert(o.rooms@[i].members@.contains(s));
                    if f.rooms@[j].members@.contains(s) {
                        if j == idx && s == id {
                            assert(!o.rooms@[i].members@.contains(id));
                        } else {
                            assert(o.rooms@[j].members@.contains(s));
                        }
                    }
                }
            }
            assert forall|i: int, s: u64|
                0 <= i < f.rooms@.len() && #[trigger] f.rooms@[i].members@.contains(
                s,
            ) implies f.sessions@.contains(s) by {
                if i == idx && s == id {
                } else {
                    assert(o.rooms@[i].members@.contains(s));
                }
            }
            assert(f.wf());
        }
    }

    /// Delivers `msg` to every member of `room` except the sender
    /// `id`. No state changes. The sender itself never receives the
    /// message. Nothing is delivered if the room does not exist or the
    /// sender is not a registered session.
    pub fn send(&self, id: u64, room: &str, msg: &str) -> (ds: Vec<Delivery>)
        requires
            self.wf(),
        ensures
            ({
                if self.registered().contains(id) && self.has_room(room@) {
                    broadcast_to(ds@, self.members_of(room@).remove(id), msg@)
                } else {
                    ds@ == Seq::<Delivery>::empty()
                }
            }),
    {
        if !self.is_registered(id) {
            let ds: Vec<Delivery> = Vec::new();
            proof {
                assert(ds@ =~= Seq::<Delivery>::empty());
            }
            return ds;
        }
        match self.find_room(room) {
            None => {
                let ds: Vec<Delivery> = Vec::new();
                proof {
                    assert(ds@ =~= Seq::<Delivery>::empty());
                }
                ds
            },
            Some(i) => {
                proof {
                    self.lemma_room_at(i as int);
                }
                broadcast_except(&self.rooms[i], id, msg)
            },
        }
    }

    /// Unregisters a session: removes it from the registry and from
    /// the room it occupied, and announces the departure to that
    /// room's remaining members. Unknown identifiers are a no-op.
    pub fn disconnect(&mut self, id: u64) -> (ds: Vec<Delivery>)
        requires
            old(self).wf(),
        ensures
            final(self).wf(),
            final(self).allocations_left() == old(self).allocations_left(),
            final(self).registered() == old(self).registered().remove(id),
            final(self).room_names() == old(self).room_names(),
            forall|n: Seq<char>| final(self).has_room(n) == old(self).has_room(n),
            forall|n: Seq<char>|
                #[trigger] final(self).members_of(n) == old(self).members_of(n).remove(id),
            !old(self).registered().contains(id) ==> ds@ == Seq::<Delivery>::empty(),
            ({
                if exists|n: Seq<char>| #[trigger] old(self).members_of(n).contains(id) {
                    exists|n: Seq<char>|
                        #[trigger] old(self).members_of(n).contains(id) && broadcast_to(
                            ds@,
                            old(self).members_of(n).remove(id),
                            disconnect_notice(id),
                        )
                } else {
                    ds@ == Seq::<Delivery>::empty()
                }
            }),
    {
        let ghost o = *old(self);
        let spos = match self.session_index(id) {
            None => {
                let ds: Vec<Delivery> = Vec::new();
                proof {
                    assert(ds@ =~= Seq::<Delivery>::empty());
                    assert(o.registered().remove(id) =~= o.registered());
                    assert forall|n: Seq<char>| #[trigger] o.members_of(n) == o.members_of(
                        n,
                    ).remove(id) by {
                        if o.members_of(n).contains(id) {
                            o.lemma_member_is_registered(id, n);
                        }
                        assert(o.members_of(n) =~= o.members_of(n).remove(id));
                    }
                    if exists|n: Seq<char>| #[trigger] o.members_of(n).contains(id) {
                        let n = choose|n: Seq<char>| #[trigger] o.members_of(n).contains(id);
                        o.lemma_member_is_registered(id, n);
                        assert(false);
                    }
                }
                return ds;
            },
            Some(k) => k,
        };
        let ds = match self.find_occupied_room(id) {
            None => {
                let ds: Vec<Delivery> = Vec::new();
                proof {
                    assert(ds@ =~= Seq::<Delivery>::empty());
                    if exists|n: Seq<char>| #[trigger] o.members_of(n).contains(id) {
                        let n = choose|n: Seq<char>| #[trigger] o.members_of(n).contains(id);
                        let i = o.room_idx(n);
                        assert(o.rooms@[i].members@.contains(id));
                        assert(false);
                    }
                    assert forall|n: Seq<char>| #[trigger] o.members_of(n) == o.members_of(
                        n,
                    ).remove(id) by {
                        if o.has_room(n) {
                            let i = o.room_idx(n);
                            assert(!o.rooms@[i].members@.contains(id));
                        }
                        assert(o.members_of(n) =~= o.members_of(n).remove(id));
                    }
                }
                ds
            },
            Some(ri) => {
                proof {
                    o.lemma_room_at(ri as int);
                }
                self.remove_member(ri, id);
                let notice = disconnect_notice_text(id);
                let ds = broadcast_except(&self.rooms[ri], id, notice.as_str());
                proof {
                    let m = *self;
                    let rn = o.rooms@[ri as int].name@;
                    m.lemma_room_at(ri as int);
                    assert(m.members_of(rn) == o.members_of(rn).remove(id));
                    assert(m.rooms@[ri as int].members@.to_set().remove(id) =~= o.members_of(
                        rn,
                    ).remove(id));
                    assert(o.members_of(rn).contains(id));
                    assert(broadcast_to(ds@, o.members_of(rn).remove(id), disconnect_notice(id)));
                }
                ds
            },
        };
        proof {
            // rooms no longer hold id, so dropping it from the registry is safe
            assert forall|i: int|
                0 <= i < self.rooms@.len() implies !(#[trigger] self.rooms@[i].members@.contains(
                id,
            )) by {
                if self.rooms@[i].members@.contains(id) {
                    assert(o.members_of(o.rooms@[i].name@).contains(id)) by {
                        o.lemma_room_at(i);
                        assert(self.members_of(o.rooms@[i].name@) == o.members_of(
                            o.rooms@[i].name@,
                        ).remove(id));
                        assert(self.rooms@[i].name@ == o.rooms@[i].name@);
                        self.lemma_room_at(i);
                    }
                }
            }
        }
        let ghost m = *self;
        let k2 = match self.session_index(id) {
            Some(k) => k,
            None => {
                proof {
                    assert(m.sessions@ == o.sessions@);
                    assert(o.sessions@[spos as int] == id);
                    assert(m.sessions@.contains(id));
                    assert(false);
                }
                0
            },
        };
        self.sessions.remove(k2);
        proof {
            let f = *self;
            lemma_remove_at(m.sessions@, k2 as int);
            assert(f.registered() =~= o.registered().remove(id));
            assert forall|i: int, s: u64|
                0 <= i < f.rooms@.len() && #[trigger] f.rooms@[i].members@.contains(
                s,
            ) implies f.sessions@.contains(s) by {
                assert(m.sessions@.contains(s));
                assert(s != id);
            }
            assert(f.wf());
            assert forall|n: Seq<char>| #[trigger] f.members_of(n) == o.members_of(n).remove(
                id,
            ) by {
                assert(f.rooms@ == m.rooms@);
                if m.has_room(n) {
                    let i = m.room_idx(n);
                    m.lemma_room_at(i);
                    f.lemma_room_at(i);
                    assert(f.members_of(n) == m.members_of(n));
                } else {
                    assert(!f.has_room(n));
                }
            }
        }
        ds
    }

    /// Moves a session to the room `name`: removes it from the room it
    /// occupied (announcing the departure there), creates `name` if
    /// absent, announces the arrival to that room's existing members,
    /// and adds the session. Unknown identifiers are a no-op.
    pub fn join(&mut self, id: u64, name: &str) -> (r: (Vec<Delivery>, Vec<Delivery>))
        requires
            old(self).wf(),
        ensures
            final(self).wf(),
            final(self).allocations_left() == old(self).allocations_left(),
            final(self).registered() == old(self).registered(),
            !old(self).registered().contains(id) ==> ({
                &&& final(self).room_names() == old(self).room_names()
                &&& forall|n: Seq<char>|
                    #[trigger] final(self).members_of(n) == old(self).members_of(n)
                &&& forall|n: Seq<char>|
                    #[trigger] final(self).has_room(n) == old(self).has_room(n)
                &&& r.0@ == Seq::<Delivery>::empty()
                &&& r.1@ == Seq::<Delivery>::empty()
            }),
            old(self).registered().contains(id) ==> ({
                &&& final(self).has_room(name@)
                &&& final(self).room_names() == (if old(self).has_room(name@) {
                    old(self).room_names()
                } else {
                    old(self).room_names().push(name@)
                })
                &&& final(self).members_of(name@) == old(self).members_of(name@).insert(id)
                &&& forall|n: Seq<char>|
                    n != name@ ==> #[trigger] final(self).members_of(n) == old(self).members_of(
                        n,
                    ).remove(id)
                &&& forall|n: Seq<char>|
                    n != name@ ==> !(#[trigger] final(self).members_of(n).contains(id))
                &&& (if exists|n: Seq<char>| #[trigger] old(self).members_of(n).contains(id) {
                    exists|n: Seq<char>|
                        #[trigger] old(self).members_of(n).contains(id) && broadcast_to(
                            r.0@,
                            old(self).members_of(n).remove(id),
                            leave_notice(id),
                        )
                } else {
                    r.0@ == Seq::<Delivery>::empty()
                })
                &&& broadcast_to(r.1@, old(self).members_of(name@).remove(id), join_notice(id))
            }),
    {
        let ghost o = *old(self);
        if !self.is_registered(id) {
            let ds0: Vec<Delivery> = Vec::new();
            let ds1: Vec<Delivery> = Vec::new();
            proof {
                assert(ds0@ =~= Seq::<Delivery>::empty());
            }
            return (ds0, ds1);
        }
        // leave the occupied room, announcing the departure there
        let mut ds0: Vec<Delivery> = Vec::new();
        match self.find_occupied_room(id) {
            None => {
                proof {
                    assert(ds0@ =~= Seq::<Delivery>::empty());
                    if exists|n: Seq<char>| #[trigger] o.members_of(n).contains(id) {
                        let n = choose|n: Seq<char>| #[trigger] o.members_of(n).contains(id);
                        let i = o.room_idx(n);
                        assert(o.rooms@[i].members@.contains(id));
                        assert(false);
                    }
                    assert forall|n: Seq<char>| #[trigger] o.members_of(n) == o.members_of(
                        n,
                    ).remove(id) by {
                        if o.has_room(n) {
                            let i = o.room_idx(n);
                            assert(!o.rooms@[i].members@.contains(id));
                        }
                        assert(o.members_of(n) =~= o.members_of(n).remove(id));
                    }
                }
            },
            Some(ri) => {
                proof {
                    o.lemma_room_at(ri as int);
                }
                self.remove_member(ri, id);
                let leave = leave_notice_text(id);
                ds0 = broadcast_except(&self.rooms[ri], id, leave.as_str());
                proof {
                    let m = *self;
                    let rn = o.rooms@[ri as int].name@;
                    m.lemma_room_at(ri as int);
                    assert(m.rooms@[ri as int].members@.to_set().remove(id) =~= o.members_of(
                        rn,
                    ).remove(id));
                    assert(o.members_of(rn).contains(id));
                    assert(broadcast_to(ds0@, o.members_of(rn).remove(id), leave_notice(id)));
                }
            },
        }
        let ghost m1 = *self;
        proof {
            // after vacating: every member set is the old one less id
            assert forall|n: Seq<char>| #[trigger] m1.members_of(n) == o.members_of(n).remove(
                id,
            ) by {}
            assert forall|i: int|
                0 <= i < m1.rooms@.len() implies !(#[trigger] m1.rooms@[i].members@.contains(
                id,
            )) by {
                if m1.rooms@[i].members@.contains(id) {
                    m1.lemma_room_at(i);
                    assert(m1.members_of(m1.rooms@[i].name@).contains(id));
                    assert(o.members_of(m1.rooms@[i].name@).remove(id).contains(id));
                }
            }
        }
        // find or create the target room
        let idx: usize = match self.find_room(name) {
            Some(i) => i,
            None => {
                self.rooms.push(Room { name: name.to_owned(), members: Vec::new() });
                let i = self.rooms.len() - 1;
                proof {
                    let m2 = *self;
                    assert(m2.rooms@ == m1.rooms@.push(m2.rooms@[i as int]));
                    assert(m2.rooms@[i as int].name@ == name@);
                    assert(m2.rooms@[i as int].members@.len() == 0);
                    assert forall|x: int, j: int|
                        0 <= x < j < m2.rooms@.len() implies m2.rooms@[x].name@
                        != m2.rooms@[j].name@ by {
                        if j == i {
                            assert(m1.rooms@[x].name@ == m2.rooms@[x].name@);
                            if m2.rooms@[x].name@ == name@ {
                                assert(m1.has_room(name@));
                            }
                        }
                    }
                    assert(rooms_named_once(m2.rooms@));
                    assert forall|x: int, j: int, s: u64|
                        #![trigger m2.rooms@[x].members@.contains(s), m2.rooms@[j].members@.contains(s)]
                        0 <= x < m2.rooms@.len() && 0 <= j < m2.rooms@.len() && x != j
                            && m2.rooms@[x].members@.contains(s) implies !m2.rooms@[j].members@
                        .contains(s) by {
                        assert(x != i);
                        assert(m1.rooms@[x].members@.contains(s));
                        if m2.rooms@[j].members@.contains(s) && j != i {
                            assert(m1.rooms@[j].members@.contains(s));
                        }
                    }
                    assert forall|x: int, s: u64|
                        0 <= x < m2.rooms@.len() && #[trigger] m2.rooms@[x].members@.contains(
                        s,
                    ) implies m2.sessions@.contains(s) by {
                        assert(x != i);
                        assert(m1.rooms@[x].members@.contains(s));
                    }
                    assert(m2.wf());
                }
                i
            },
        };
        let ghost m2 = *self;
        proof {
            // the target room now exists and member sets are unchanged
            // from the vacated state
            assert(m2.rooms@[idx as int].name@ == name@);
            m2.lemma_room_at(idx as int);
            if m1.has_room(name@) {
                assert(m2 == m1);
                assert(m2.room_names() == (if o.has_room(name@) {
                    o.room_names()
                } else {
                    o.room_names().push(name@)
                }));
            } else {
                assert(m2.rooms@ == m1.rooms@.push(m2.rooms@[idx as int]));
                assert(m2.room_names() =~= m1.room_names().push(name@));
            }
            assert forall|n: Seq<char>| #[trigger] m2.members_of(n) == o.members_of(n).remove(
                id,
            ) by {
                if m1.has_room(n) {
                    let i = m1.room_idx(n);
                    m1.lemma_room_at(i);
                    assert(m2.rooms@[i].name@ == n);
                    m2.lemma_room_at(i);
                    assert(m2.members_of(n) == m1.members_of(n));
                } else if n == name@ {
                    assert(m1.members_of(n) =~= Set::<u64>::empty());
                    assert(m2.members_of(n) =~= m1.members_of(n));
                } else {
                    assert(!m2.has_room(n)) by {
                        if m2.has_room(n) {
                            let i = m2.room_idx(n);
                            if i < m1.rooms@.len() {
                                assert(m1.rooms@[i].name@ == n);
                            }
                        }
                    }
                }
            }
            assert forall|i: int|
                0 <= i < m2.rooms@.len() implies !(#[trigger] m2.rooms@[i].members@.contains(
                id,
            )) by {
                if i < m1.rooms@.len() {
                    assert(m1.rooms@[i].members@.contains(id) == m2.rooms@[i].members@.contains(
                        id,
                    ));
                }
            }
        }
        // announce the arrival, then enter the room
        let join_txt = join_notice_text(id);
        let ds1 = broadcast_except(&self.rooms[idx], id, join_txt.as_str());
        proof {
            assert(m2.rooms@[idx as int].members@.to_set().remove(id) =~= o.members_of(
                name@,
            ).remove(id).remove(id));
            assert(o.members_of(name@).remove(id).remove(id) =~= o.members_of(name@).remove(id));
            assert(broadcast_to(ds1@, o.members_of(name@).remove(id), join_notice(id)));
        }
        self.add_member(idx, id);
        proof {
            let f = *self;
            assert(f.members_of(name@) == m2.members_of(name@).insert(id));
            assert(f.members_of(name@) =~= o.members_of(name@).insert(id));
            assert(f.registered() == o.registered());
            assert(f.room_names() == m2.room_names());
            assert(f.has_room(name@)) by {
                m2.lemma_room_at(idx as int);
                assert(f.has_room(name@) == m2.has_room(name@));
            }
            assert forall|n: Seq<char>|
                n != name@ implies #[trigger] f.members_of(n) == o.members_of(n).remove(id) by {
                assert(f.members_of(n) == m2.members_of(n));
            }
            assert forall|n: Seq<char>| n != name@ implies !(#[trigger] f.members_of(n).contains(
                id,
            )) by {
                assert(f.members_of(n) == o.members_of(n).remove(id));
            }
        }
        (ds0, ds1)
    }
}

impl ChatBroker {
    /// A snapshot of all known room names. "Main" is always among
    /// them, whether or not any session ever joined another room.
    pub fn list_rooms(&self) -> (names: Vec<String>)
        requires
            self.wf(),
        ensures
            names@.map_values(|s: String| s@) == self.room_names(),
            names@.len() >= 1 && names@[0]@ == "Main"@,
            self.room_names().contains("Main"@),
    {
        let n = self.rooms.len();
        let mut names: Vec<String> = Vec::new();
        let mut k: usize = 0;
        while k < n
            invariant
                n == self.rooms@.len(),
                0 <= k <= n,
                names@.len() == k,
                forall|x: int| 0 <= x < k ==> names@[x]@ == self.rooms@[x].name@,
            decreases n - k,
        {
            names.push(self.rooms[k].name.clone());
            k += 1;
        }
        proof {
            assert(names@.map_values(|s: String| s@) =~= self.room_names());
            self.lemma_main_exists();
            assert(names@[0]@ == self.rooms@[0].name@);
        }
        names
    }
}

/// A broadcast reaches every target: some delivery carries the text to
/// `m`. Together with the notice broadcasts of `join` and `disconnect`
/// this says that the remaining members of a vacated room, and the
/// existing members of an entered room, each receive their notice.
pub proof fn lemma_broadcast_reaches(ds: Seq<Delivery>, targets: Set<u64>, text: Seq<char>, m: u64)
    requires
        broadcast_to(ds, targets, text),
        targets.contains(m),
    ensures
        exists|k: int| 0 <= k < ds.len() && ds[k].to == m && ds[k].text@ == text,
{
    let k = choose|k: int| 0 <= k < ds.len() && ds[k].to == m;
    assert(ds[k].text@ == text);
}

/// A broadcast reaches nobody else: a session outside the target set —
/// the sender of a chat line, a session already disconnected — receives
/// no delivery at all.
pub proof fn lemma_broadcast_excludes(
    ds: Seq<Delivery>,
    targets: Set<u64>,
    text: Seq<char>,
    m: u64,
)
    requires
        broadcast_to(ds, targets, text),
        !targets.contains(m),
    ensures
        forall|k: int| 0 <= k < ds.len() ==> (#[trigger] ds[k].to) != m,
{
}

impl ChatBroker {
    /// A chat line sent by one room member reaches every other member
    /// of the room and never the sender itself: of a delivery list
    /// meeting `send`'s contract, some delivery carries `text` to
    /// `other`, and none addresses `sender`.
    pub proof fn lemma_send_routing(
        self,
        sender: u64,
        other: u64,
        room: Seq<char>,
        text: Seq<char>,
        ds: Seq<Delivery>,
    )
        requires
            self.wf(),
            self.members_of(room).contains(other),
            other != sender,
            broadcast_to(ds, self.members_of(room).remove(sender), text),
        ensures
            exists|k: int| 0 <= k < ds.len() && ds[k].to == other && ds[k].text@ == text,
            forall|k: int| 0 <= k < ds.len() ==> (#[trigger] ds[k].to) != sender,
    {
        let targets = self.members_of(room).remove(sender);
        lemma_broadcast_reaches(ds, targets, text, other);
        lemma_broadcast_excludes(ds, targets, text, sender);
    }

    /// Identifiers stay unique over any sequence of registrations:
    /// when two connect operations run one after the other — each
    /// returning an identifier not registered before it and adding it
    /// to the registry, which is what `connect` ensures — the two
    /// identifiers differ and both are registered afterwards.
    pub proof fn lemma_connect_ids_distinct(
        self,
        b1: ChatBroker,
        b2: ChatBroker,
        id1: u64,
        id2: u64,
    )
        requires
            !self.registered().contains(id1),
            b1.registered() == self.registered().insert(id1),
            !b1.registered().contains(id2),
            b2.registered() == b1.registered().insert(id2),
        ensures
            id1 != id2,
            b2.registered().contains(id1),
            b2.registered().contains(id2),
    {
        assert(b1.registered().contains(id1));
    }

    /// A disconnected session is gone everywhere: once the registry
    /// and every member set have had `id` removed — which is what
    /// `disconnect` ensures — no trace of `id` remains, so later
    /// operations referencing it find nothing.
    pub proof fn lemma_disconnect_purges(self, pre: ChatBroker, id: u64)
        requires
            self.registered() == pre.registered().remove(id),
            forall|n: Seq<char>| #[trigger] self.members_of(n) == pre.members_of(n).remove(id),
        ensures
            !self.registered().contains(id),
            forall|n: Seq<char>| !(#[trigger] self.members_of(n).contains(id)),
    {
        assert forall|n: Seq<char>| !(#[trigger] self.members_of(n).contains(id)) by {
            assert(self.members_of(n) == pre.members_of(n).remove(id));
        }
    }
}

impl Default for ChatBroker {
    /// Same as `ChatBroker::new`: the state a broker starts in.
    fn default() -> (b: ChatBroker)
        ensures
            b.wf(),
            b.allocations_left() == u64::MAX - 1,
            b.registered() == Set::<u64>::empty(),
            b.room_names() == seq!["Main"@],
            b.members_of("Main"@) == Set::<u64>::empty(),
    {
        ChatBroker::new()
    }
}

} // verus!
