//! Mathematical model of the registry.
//!
//! `StateV` is the view of the executable registry: a sequence of room views
//! and a sequence of registered-user views, with all strings abstracted to
//! `Seq<char>`. Every operation of the registry is described here by spec
//! functions: `*_ok` says when it succeeds, `*_next` gives the state after
//! the call, and (for the operations that emit one) `*_event` gives the
//! emitted event.

use vstd::prelude::*;
use crate::registry::RoomType;

verus! {

/// View of one stored message: who sent it, its payload, and the
/// caller-supplied timestamp.
pub ghost struct MessageV {
    pub sender: Seq<char>,
    pub content: Seq<char>,
    pub timestamp: u64,
}

/// View of one room: its unique name, fixed type, the password it was created
/// with (stored verbatim), its append-only message history, its members in
/// join order, and the identifier allowed to delete it.
#[verifier::ext_equal]
pub ghost struct RoomV {
    pub name: Seq<char>,
    pub room_type: RoomType,
    pub password: Seq<char>,
    pub messages: Seq<MessageV>,
    pub users: Seq<Seq<char>>,
    pub creator: Seq<char>,
}

/// View of one registered user: a unique handle and a unique wallet address.
pub ghost struct UserV {
    pub username: Seq<char>,
    pub wallet_address: Seq<char>,
}

/// View of the whole registry.
#[verifier::ext_equal]
pub ghost struct StateV {
    pub rooms: Seq<RoomV>,
    pub users: Seq<UserV>,
}

/// View of a domain event, one per successful mutating operation.
pub ghost enum EventV {
    RoomCreated { name: Seq<char> },
    UserJoinedRoom { room: Seq<char>, user: Seq<char> },
    MessageSent { room: Seq<char>, sender: Seq<char>, content: Seq<char> },
    RoomDeleted { name: Seq<char> },
    UserRegistered { username: Seq<char>, wallet_address: Seq<char> },
    SignalingMessage {
        room: Seq<char>,
        sender: Seq<char>,
        receiver: Seq<char>,
        content: Seq<char>,
    },
}

impl RoomV {
    /// Whether `user` is currently a member of this room.
    pub open spec fn is_member(self, user: Seq<char>) -> bool {
        self.users.contains(user)
    }

    /// The position of `user` in the membership list (meaningful only when
    /// `is_member` holds; unique under `wf`).
    pub open spec fn member_index(self, user: Seq<char>) -> int {
        choose|i: int| 0 <= i < self.users.len() && self.users[i] == user
    }

    /// A room is well formed when its membership list has no duplicates.
    pub open spec fn wf(self) -> bool {
        forall|i: int, j: int|
            0 <= i < j < self.users.len() ==> self.users[i] != self.users[j]
    }
}

impl StateV {
    /// The registry right after initialization: no rooms, no users.
    pub open spec fn empty() -> StateV {
        StateV { rooms: Seq::empty(), users: Seq::empty() }
    }

    // ----- lookups -----

    /// Whether a room named `name` exists.
    pub open spec fn has_room(self, name: Seq<char>) -> bool {
        exists|i: int| 0 <= i < self.rooms.len() && self.rooms[i].name == name
    }

    /// The position of the room named `name` (meaningful only when `has_room`
    /// holds; unique under `wf`).
    pub open spec fn room_index(self, name: Seq<char>) -> int {
        choose|i: int| 0 <= i < self.rooms.len() && self.rooms[i].name == name
    }

    /// The room named `name` (meaningful only when `has_room` holds).
    pub open spec fn room(self, name: Seq<char>) -> RoomV {
        self.rooms[self.room_index(name)]
    }

    /// Whether some registered user already holds `username`.
    pub open spec fn has_username(self, username: Seq<char>) -> bool {
        exists|i: int| 0 <= i < self.users.len() && self.users[i].username == username
    }

    /// Whether some registered user already holds `wallet_address`.
    pub open spec fn has_wallet(self, wallet_address: Seq<char>) -> bool {
        exists|i: int|
            0 <= i < self.users.len() && self.users[i].wallet_address == wallet_address
    }

    /// The position of the user registered under `wallet_address`.
    pub open spec fn wallet_index(self, wallet_address: Seq<char>) -> int {
        choose|i: int|
            0 <= i < self.users.len() && self.users[i].wallet_address == wallet_address
    }

    /// The position of the user registered under `username`.
    pub open spec fn username_index(self, username: Seq<char>) -> int {
        choose|i: int| 0 <= i < self.users.len() && self.users[i].username == username
    }

    /// The username registered for `wallet_address` (meaningful only when
    /// `has_wallet` holds).
    pub open spec fn username_of(self, wallet_address: Seq<char>) -> Seq<char> {
        self.users[self.wallet_index(wallet_address)].username
    }

    /// The wallet address registered for `username` (meaningful only when
    /// `has_username` holds).
    pub open spec fn wallet_of(self, username: Seq<char>) -> Seq<char> {
        self.users[self.username_index(username)].wallet_address
    }

    // ----- well-formedness -----

    /// Room names are unique across the registry.
    pub open spec fn rooms_unique(self) -> bool {
        forall|i: int, j: int|
            0 <= i < j < self.rooms.len() ==> self.rooms[i].name != self.rooms[j].name
    }

    /// Usernames and wallet addresses are each unique across registered users.
    pub open spec fn users_unique(self) -> bool {
        &&& forall|i: int, j: int|
            0 <= i < j < self.users.len()
                ==> self.users[i].username != self.users[j].username
        &&& forall|i: int, j: int|
            0 <= i < j < self.users.len()
                ==> self.users[i].wallet_address != self.users[j].wallet_address
    }

    /// The registry invariant: unique room names, unique user identities, and
    /// duplicate-free membership in every room.
    pub open spec fn wf(self) -> bool {
        &&& self.rooms_unique()
        &&& self.users_unique()
        &&& forall|k: int| 0 <= k < self.rooms.len() ==> (#[trigger] self.rooms[k]).wf()
    }

    // ----- user registration -----

    /// `register_user` succeeds iff neither the username nor the wallet
    /// address is already taken.
    pub open spec fn register_user_ok(self, username: Seq<char>, wallet_address: Seq<char>) -> bool {
        !self.has_username(username) && !self.has_wallet(wallet_address)
    }

    /// State after `register_user`: on success the new profile is appended,
    /// otherwise nothing changes.
    pub open spec fn register_user_next(self, username: Seq<char>, wallet_address: Seq<char>) -> StateV {
        if self.register_user_ok(username, wallet_address) {
            StateV { users: self.users.push(UserV { username, wallet_address }), ..self }
        } else {
            self
        }
    }

    /// Event emitted by `register_user`.
    pub open spec fn register_user_event(self, username: Seq<char>, wallet_address: Seq<char>) -> Option<EventV> {
        if self.register_user_ok(username, wallet_address) {
            Some(EventV::UserRegistered { username, wallet_address })
        } else {
            None
        }
    }

    // ----- room lifecycle -----

    /// `create_room` succeeds iff no room with that name exists.
    pub open spec fn create_room_ok(self, name: Seq<char>) -> bool {
        !self.has_room(name)
    }

    /// State after `create_room`: on success a room with empty history and
    /// empty membership is appended; the creator is not made a member.
    pub open spec fn create_room_next(
        self,
        name: Seq<char>,
        password: Seq<char>,
        creator: Seq<char>,
        room_type: RoomType,
    ) -> StateV {
        if self.create_room_ok(name) {
            StateV {
                rooms: self.rooms.push(
                    RoomV {
                        name,
                        room_type,
                        password,
                        messages: Seq::empty(),
                        users: Seq::empty(),
                        creator,
                    },
                ),
                ..self
            }
        } else {
            self
        }
    }

    /// Event emitted by `create_room`.
    pub open spec fn create_room_event(self, name: Seq<char>) -> Option<EventV> {
        if self.create_room_ok(name) {
            Some(EventV::RoomCreated { name })
        } else {
            None
        }
    }

    /// `delete_room` succeeds iff the room exists and the caller is its
    /// creator, exactly.
    pub open spec fn delete_room_ok(self, name: Seq<char>, wallet_address: Seq<char>) -> bool {
        self.has_room(name) && self.room(name).creator == wallet_address
    }

    /// State after `delete_room`: on success the room is removed entirely,
    /// its messages and membership with it.
    pub open spec fn delete_room_next(self, name: Seq<char>, wallet_address: Seq<char>) -> StateV {
        if self.delete_room_ok(name, wallet_address) {
            StateV { rooms: self.rooms.remove(self.room_index(name)), ..self }
        } else {
            self
        }
    }

    /// Event emitted by `delete_room`.
    pub open spec fn delete_room_event(self, name: Seq<char>, wallet_address: Seq<char>) -> Option<EventV> {
        if self.delete_room_ok(name, wallet_address) {
            Some(EventV::RoomDeleted { name })
        } else {
            None
        }
    }

    // ----- membership -----

    /// `join_room` succeeds iff the room exists and the password matches its
    /// stored password exactly (also when the user is already a member).
    pub open spec fn join_room_ok(self, name: Seq<char>, password: Seq<char>) -> bool {
        self.has_room(name) && self.room(name).password == password
    }

    /// State after `join_room`: the user is appended to the membership list
    /// only when the credentials are valid and the user is not yet a member;
    /// a repeated join is a no-op.
    pub open spec fn join_room_next(self, name: Seq<char>, user: Seq<char>, password: Seq<char>) -> StateV {
        if self.join_room_ok(name, password) && !self.room(name).is_member(user) {
            let i = self.room_index(name);
            let r = self.rooms[i];
            StateV { rooms: self.rooms.update(i, RoomV { users: r.users.push(user), ..r }), ..self }
        } else {
            self
        }
    }

    /// Event emitted by `join_room`: only when the user was actually added,
    /// never on a repeated join.
    pub open spec fn join_room_event(self, name: Seq<char>, user: Seq<char>, password: Seq<char>) -> Option<EventV> {
        if self.join_room_ok(name, password) && !self.room(name).is_member(user) {
            Some(EventV::UserJoinedRoom { room: name, user })
        } else {
            None
        }
    }

    /// `leave_room` succeeds iff the room exists and the user is a member.
    pub open spec fn leave_room_ok(self, name: Seq<char>, user: Seq<char>) -> bool {
        self.has_room(name) && self.room(name).is_member(user)
    }

    /// State after `leave_room`: the user's entry is removed from the
    /// membership list, the order of the remaining entries preserved. No
    /// event is emitted by this operation.
    pub open spec fn leave_room_next(self, name: Seq<char>, user: Seq<char>) -> StateV {
        if self.leave_room_ok(name, user) {
            let i = self.room_index(name);
            let r = self.rooms[i];
            StateV {
                rooms: self.rooms.update(i, RoomV { users: r.users.remove(r.member_index(user)), ..r }),
                ..self
            }
        } else {
            self
        }
    }

    // ----- messaging and signaling -----

    /// `send_message` succeeds iff the room exists and the sender is a member.
    pub open spec fn send_message_ok(self, name: Seq<char>, sender: Seq<char>) -> bool {
        self.has_room(name) && self.room(name).is_member(sender)
    }

    /// State after `send_message`: the message is appended to the room's
    /// history with timestamp zero (the registry never stamps wall-clock
    /// time).
    pub open spec fn send_message_next(self, name: Seq<char>, sender: Seq<char>, content: Seq<char>) -> StateV {
        if self.send_message_ok(name, sender) {
            let i = self.room_index(name);
            let r = self.rooms[i];
            StateV {
                rooms: self.rooms.update(
                    i,
                    RoomV { messages: r.messages.push(MessageV { sender, content, timestamp: 0 }), ..r },
                ),
                ..self
            }
        } else {
            self
        }
    }

    /// Event emitted by `send_message`.
    pub open spec fn send_message_event(self, name: Seq<char>, sender: Seq<char>, content: Seq<char>) -> Option<EventV> {
        if self.send_message_ok(name, sender) {
            Some(EventV::MessageSent { room: name, sender, content })
        } else {
            None
        }
    }

    /// `send_signaling` succeeds iff the room exists and both the sender and
    /// the receiver are members. It never changes the state: the payload is
    /// only gatekept and republished as an event, never stored.
    pub open spec fn send_signaling_ok(self, name: Seq<char>, sender: Seq<char>, receiver: Seq<char>) -> bool {
        self.has_room(name) && self.room(name).is_member(sender) && self.room(name).is_member(receiver)
    }

    /// Event emitted by `send_signaling`.
    pub open spec fn send_signaling_event(
        self,
        name: Seq<char>,
        sender: Seq<char>,
        receiver: Seq<char>,
        content: Seq<char>,
    ) -> Option<EventV> {
        if self.send_signaling_ok(name, sender, receiver) {
            Some(EventV::SignalingMessage { room: name, sender, receiver, content })
        } else {
            None
        }
    }
}

// ----- uniqueness of the chosen indices -----

/// Under unique room names, any position holding `name` is `room_index(name)`.
pub proof fn lemma_room_index(s: StateV, name: Seq<char>, i: int)
    requires
        s.rooms_unique(),
        0 <= i < s.rooms.len(),
        s.rooms[i].name == name,
    ensures
        s.has_room(name),
        s.room_index(name) == i,
        s.room(name) == s.rooms[i],
{
    assert(s.has_room(name));
    let j = s.room_index(name);
    assert(0 <= j < s.rooms.len() && s.rooms[j].name == name);
    if i < j {
        assert(s.rooms[i].name != s.rooms[j].name);
    } else if j < i {
        assert(s.rooms[j].name != s.rooms[i].name);
    }
}

/// Under unique wallet addresses, any position holding `wallet_address` is
/// `wallet_index(wallet_address)`.
pub proof fn lemma_wallet_index(s: StateV, wallet_address: Seq<char>, i: int)
    requires
        s.users_unique(),
        0 <= i < s.users.len(),
        s.users[i].wallet_address == wallet_address,
    ensures
        s.has_wallet(wallet_address),
        s.wallet_index(wallet_address) == i,
        s.username_of(wallet_address) == s.users[i].username,
{
    assert(s.has_wallet(wallet_address));
    let j = s.wallet_index(wallet_address);
    assert(0 <= j < s.users.len() && s.users[j].wallet_address == wallet_address);
    if i < j {
        assert(s.users[i].wallet_address != s.users[j].wallet_address);
    } else if j < i {
        assert(s.users[j].wallet_address != s.users[i].wallet_address);
    }
}

/// Under unique usernames, any position holding `username` is
/// `username_index(username)`.
pub proof fn lemma_username_index(s: StateV, username: Seq<char>, i: int)
    requires
        s.users_unique(),
        0 <= i < s.users.len(),
        s.users[i].username == username,
    ensures
        s.has_username(username),
        s.username_index(username) == i,
        s.wallet_of(username) == s.users[i].wallet_address,
{
    assert(s.has_username(username));
    let j = s.username_index(username);
    assert(0 <= j < s.users.len() && s.users[j].username == username);
    if i < j {
        assert(s.users[i].username != s.users[j].username);
    } else if j < i {
        assert(s.users[j].username != s.users[i].username);
    }
}

/// In a well-formed room, any position holding `user` is `member_index(user)`.
pub proof fn lemma_member_index(r: RoomV, user: Seq<char>, i: int)
    requires
        r.wf(),
        0 <= i < r.users.len(),
        r.users[i] == user,
    ensures
        r.is_member(user),
        r.member_index(user) == i,
{
    assert(r.is_member(user));
    let j = r.member_index(user);
    assert(0 <= j < r.users.len() && r.users[j] == user);
    if i < j {
        assert(r.users[i] != r.users[j]);
    } else if j < i {
        assert(r.users[j] != r.users[i]);
    }
}

// ----- preservation of the invariant -----

/// Registering a user keeps the registry well formed.
pub proof fn lemma_register_user_preserves_wf(s: StateV, username: Seq<char>, wallet_address: Seq<char>)
    requires
        s.wf(),
    ensures
        s.register_user_next(username, wallet_address).wf(),
{
    let s1 = s.register_user_next(username, wallet_address);
    if s.register_user_ok(username, wallet_address) {
        assert forall|i: int, j: int| 0 <= i < j < s1.users.len()
            implies s1.users[i].username != s1.users[j].username
                && s1.users[i].wallet_address != s1.users[j].wallet_address by {
            if j == s.users.len() {
                assert(s1.users[i] == s.users[i]);
                assert(!(0 <= i < s.users.len() && s.users[i].username == username));
                assert(!(0 <= i < s.users.len() && s.users[i].wallet_address == wallet_address));
            }
        }
    }
}

/// Creating a room keeps the registry well formed.
pub proof fn lemma_create_room_preserves_wf(
    s: StateV,
    name: Seq<char>,
    password: Seq<char>,
    creator: Seq<char>,
    room_type: RoomType,
)
    requires
        s.wf(),
    ensures
        s.create_room_next(name, password, creator, room_type).wf(),
{
    let s1 = s.create_room_next(name, password, creator, room_type);
    if s.create_room_ok(name) {
        assert forall|i: int, j: int| 0 <= i < j < s1.rooms.len()
            implies s1.rooms[i].name != s1.rooms[j].name by {
            if j == s.rooms.len() {
                assert(s1.rooms[i] == s.rooms[i]);
                assert(!(0 <= i < s.rooms.len() && s.rooms[i].name == name));
            }
        }
        assert forall|k: int| 0 <= k < s1.rooms.len() implies (#[trigger] s1.rooms[k]).wf() by {
            if k < s.rooms.len() {
                assert(s1.rooms[k] == s.rooms[k]);
            }
        }
    }
}

/// Joining a room keeps the registry well formed.
pub proof fn lemma_join_room_preserves_wf(s: StateV, name: Seq<char>, user: Seq<char>, password: Seq<char>)
    requires
        s.wf(),
    ensures
        s.join_room_next(name, user, password).wf(),
{
    let s1 = s.join_room_next(name, user, password);
    if s.join_room_ok(name, password) && !s.room(name).is_member(user) {
        let i = s.room_index(name);
        assert(0 <= i < s.rooms.len() && s.rooms[i].name == name);
        let r0 = s.rooms[i];
        let r1 = s1.rooms[i];
        assert(r1.users == r0.users.push(user));
        assert forall|a: int, b: int| 0 <= a < b < s1.rooms.len()
            implies s1.rooms[a].name != s1.rooms[b].name by {
            assert(s1.rooms[a].name == s.rooms[a].name);
            assert(s1.rooms[b].name == s.rooms[b].name);
        }
        assert forall|k: int| 0 <= k < s1.rooms.len() implies (#[trigger] s1.rooms[k]).wf() by {
            if k == i {
                assert(r0.wf());
                assert forall|x: int, y: int| 0 <= x < y < r1.users.len()
                    implies r1.users[x] != r1.users[y] by {
                    if y == r0.users.len() {
                        assert(r1.users[x] == r0.users[x]);
                        assert(!(0 <= x < r0.users.len() && r0.users[x] == user));
                    }
                }
            } else {
                assert(s1.rooms[k] == s.rooms[k]);
            }
        }
    }
}

/// Leaving a room keeps the registry well formed.
pub proof fn lemma_leave_room_preserves_wf(s: StateV, name: Seq<char>, user: Seq<char>)
    requires
        s.wf(),
    ensures
        s.leave_room_next(name, user).wf(),
{
    let s1 = s.leave_room_next(name, user);
    if s.leave_room_ok(name, user) {
        let i = s.room_index(name);
        assert(0 <= i < s.rooms.len() && s.rooms[i].name == name);
        let r0 = s.rooms[i];
        let m = r0.member_index(user);
        assert(0 <= m < r0.users.len() && r0.users[m] == user);
        let r1 = s1.rooms[i];
        assert(r1.users == r0.users.remove(m));
        assert forall|a: int, b: int| 0 <= a < b < s1.rooms.len()
            implies s1.rooms[a].name != s1.rooms[b].name by {
            assert(s1.rooms[a].name == s.rooms[a].name);
            assert(s1.rooms[b].name == s.rooms[b].name);
        }
        assert forall|k: int| 0 <= k < s1.rooms.len() implies (#[trigger] s1.rooms[k]).wf() by {
            if k == i {
                assert(r0.wf());
                assert forall|x: int, y: int| 0 <= x < y < r1.users.len()
                    implies r1.users[x] != r1.users[y] by {
                    let x2 = if x < m { x } else { x + 1 };
                    let y2 = if y < m { y } else { y + 1 };
                    assert(r1.users[x] == r0.users[x2]);
                    assert(r1.users[y] == r0.users[y2]);
                    assert(r0.users[x2] != r0.users[y2]);
                }
            } else {
                assert(s1.rooms[k] == s.rooms[k]);
            }
        }
    }
}

/// Sending a message keeps the registry well formed.
pub proof fn lemma_send_message_preserves_wf(s: StateV, name: Seq<char>, sender: Seq<char>, content: Seq<char>)
    requires
        s.wf(),
    ensures
        s.send_message_next(name, sender, content).wf(),
{
    let s1 = s.send_message_next(name, sender, content);
    if s.send_message_ok(name, sender) {
        let i = s.room_index(name);
        assert(0 <= i < s.rooms.len() && s.rooms[i].name == name);
        assert forall|a: int, b: int| 0 <= a < b < s1.rooms.len()
            implies s1.rooms[a].name != s1.rooms[b].name by {
            assert(s1.rooms[a].name == s.rooms[a].name);
            assert(s1.rooms[b].name == s.rooms[b].name);
        }
        assert forall|k: int| 0 <= k < s1.rooms.len() implies (#[trigger] s1.rooms[k]).wf() by {
            if k == i {
                assert(s.rooms[i].wf());
                assert(s1.rooms[k].users == s.rooms[k].users);
            } else {
                assert(s1.rooms[k] == s.rooms[k]);
            }
        }
    }
}

/// Deleting a room keeps the registry well formed.
pub proof fn lemma_delete_room_preserves_wf(s: StateV, name: Seq<char>, wallet_address: Seq<char>)
    requires
        s.wf(),
    ensures
        s.delete_room_next(name, wallet_address).wf(),
{
    let s1 = s.delete_room_next(name, wallet_address);
    if s.delete_room_ok(name, wallet_address) {
        let i = s.room_index(name);
        assert(0 <= i < s.rooms.len() && s.rooms[i].name == name);
        assert(s1.rooms == s.rooms.remove(i));
        assert forall|a: int, b: int| 0 <= a < b < s1.rooms.len()
            implies s1.rooms[a].name != s1.rooms[b].name by {
            let a2 = if a < i { a } else { a + 1 };
            let b2 = if b < i { b } else { b + 1 };
            assert(s1.rooms[a] == s.rooms[a2]);
            assert(s1.rooms[b] == s.rooms[b2]);
            assert(s.rooms[a2].name != s.rooms[b2].name);
        }
        assert forall|k: int| 0 <= k < s1.rooms.len() implies (#[trigger] s1.rooms[k]).wf() by {
            let k2 = if k < i { k } else { k + 1 };
            assert(s1.rooms[k] == s.rooms[k2]);
            assert(s.rooms[k2].wf());
        }
    }
}

// ----- sequence bridging -----

/// Mapping a function over a sequence commutes with `push`.
pub proof fn lemma_map_values_push<A, B>(s: Seq<A>, f: spec_fn(A) -> B, v: A)
    ensures
        s.push(v).map_values(f) =~= s.map_values(f).push(f(v)),
{
}

/// Mapping a function over a sequence commutes with `update`.
pub proof fn lemma_map_values_update<A, B>(s: Seq<A>, f: spec_fn(A) -> B, i: int, v: A)
    requires
        0 <= i < s.len(),
    ensures
        s.update(i, v).map_values(f) =~= s.map_values(f).update(i, f(v)),
{
}

/// Mapping a function over a sequence commutes with `remove`.
pub proof fn lemma_map_values_remove<A, B>(s: Seq<A>, f: spec_fn(A) -> B, i: int)
    requires
        0 <= i < s.len(),
    ensures
        s.remove(i).map_values(f) =~= s.map_values(f).remove(i),
{
}

/// Removing an element and inserting another at the same position is an
/// update.
pub proof fn lemma_remove_insert<T>(s: Seq<T>, i: int, v: T)
    requires
        0 <= i < s.len(),
    ensures
        s.remove(i).insert(i, v) =~= s.update(i, v),
{
}

} // verus!
