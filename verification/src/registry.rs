//! The executable registry and its operations.
//!
//! `ChatState` owns the rooms and the registered users. Its view is a
//! `StateV` (see the model module); every operation's contract equates the
//! returned success flag, the new state and the emitted event with the
//! model's description of that operation.

use vstd::prelude::*;
use crate::model::{EventV, MessageV, RoomV, StateV, UserV};
use crate::snapshot::{
    snapshot_wf, MessageSnapshot, RegistrySnapshot, RoomSnapshot, UserSnapshot,
};
use crate::model::{
    lemma_create_room_preserves_wf, lemma_delete_room_preserves_wf, lemma_join_room_preserves_wf,
    lemma_leave_room_preserves_wf, lemma_map_values_push, lemma_map_values_remove,
    lemma_map_values_update, lemma_member_index, lemma_register_user_preserves_wf,
    lemma_remove_insert, lemma_room_index, lemma_send_message_preserves_wf,
    lemma_username_index, lemma_wallet_index,
};

verus! {

/// The kind of a room, fixed at creation.
#[derive(Clone, Copy, PartialEq, Eq, Structural, Debug)]
pub enum RoomType {
    Chat,
    Voice,
}

/// One message stored in a room's history.
pub struct Message {
    sender: String,
    content: String,
    timestamp: u64,
}

/// A named communication channel with membership and message history.
pub struct Room {
    name: String,
    room_type: RoomType,
    password_hash: String,
    messages: Vec<Message>,
    users: Vec<String>,
    creator: String,
}

/// One registered participant.
pub struct UserProfile {
    username: String,
    wallet_address: String,
}

/// A domain event, produced by each successful mutating operation and handed
/// to the caller for delivery to subscribers.
pub enum Event {
    RoomCreated { name: String },
    UserJoinedRoom { room: String, user: String },
    MessageSent { room: String, sender: String, content: String },
    RoomDeleted { name: String },
    UserRegistered { username: String, wallet_address: String },
    SignalingMessage { room: String, sender: String, receiver: String, content: String },
}

/// The registry: all rooms and all registered users.
pub struct ChatState {
    rooms: Vec<Room>,
    users: Vec<UserProfile>,
}

impl View for Message {
    type V = MessageV;

    closed spec fn view(&self) -> MessageV {
        MessageV { sender: self.sender@, content: self.content@, timestamp: self.timestamp }
    }
}

impl View for Room {
    type V = RoomV;

    closed spec fn view(&self) -> RoomV {
        RoomV {
            name: self.name@,
            room_type: self.room_type,
            password: self.password_hash@,
            messages: self.messages@.map_values(|m: Message| m@),
            users: self.users@.map_values(|u: String| u@),
            creator: self.creator@,
        }
    }
}

impl View for UserProfile {
    type V = UserV;

    closed spec fn view(&self) -> UserV {
        UserV { username: self.username@, wallet_address: self.wallet_address@ }
    }
}

impl View for Event {
    type V = EventV;

    closed spec fn view(&self) -> EventV {
        match self {
            Event::RoomCreated { name } => EventV::RoomCreated { name: name@ },
            Event::UserJoinedRoom { room, user } => (EventV::UserJoinedRoom {
                room: room@,
                user: user@,
            }),
            Event::MessageSent { room, sender, content } => (EventV::MessageSent {
                room: room@,
                sender: sender@,
                content: content@,
            }),
            Event::RoomDeleted { name } => EventV::RoomDeleted { name: name@ },
            Event::UserRegistered { username, wallet_address } => (EventV::UserRegistered {
                username: username@,
                wallet_address: wallet_address@,
            }),
            Event::SignalingMessage { room, sender, receiver, content } => (EventV::SignalingMessage {
                room: room@,
                sender: sender@,
                receiver: receiver@,
                content: content@,
            }),
        }
    }
}

impl View for ChatState {
    type V = StateV;

    closed spec fn view(&self) -> StateV {
        StateV {
            rooms: self.rooms@.map_values(|r: Room| r@),
            users: self.users@.map_values(|u: UserProfile| u@),
        }
    }
}

/// The position of `user` in a membership list, if present.
fn member_position(users: &Vec<String>, user: &String) -> (r: Option<usize>)
    ensures
        match r {
            Some(i) => i < users.len() && users@[i as int]@ == user@,
            None => forall|j: int| 0 <= j < users@.len() ==> (#[trigger] users@[j])@ != user@,
        },
{
    let n = users.len();
    let mut k: usize = 0;
    while k < n
        invariant
            n == users.len(),
            k <= n,
            forall|j: int| 0 <= j < k ==> (#[trigger] users@[j])@ != user@,
        decreases n - k,
    {
        if users[k] == *user {
            return Some(k);
        }
        k += 1;
    }
    None
}

/// Copy of a list of strings.
fn copy_strings(v: &Vec<String>) -> (r: Vec<String>)
    ensures
        r@.map_values(|s: String| s@) == v@.map_values(|s: String| s@),
{
    let mut out: Vec<String> = Vec::new();
    let n = v.len();
    let mut k: usize = 0;
    while k < n
        invariant
            n == v.len(),
            k <= n,
            out@.len() == k,
            forall|j: int| 0 <= j < k ==> (#[trigger] out@[j])@ == v@[j]@,
        decreases n - k,
    {
        out.push(v[k].clone());
        k += 1;
    }
    proof {
        assert(out@.map_values(|s: String| s@) =~= v@.map_values(|s: String| s@));
    }
    out
}

/// Copy of a message history, as snapshot values.
fn messages_to_snapshot(v: &Vec<Message>) -> (r: Vec<MessageSnapshot>)
    ensures
        r@.map_values(|m: MessageSnapshot| m@) == v@.map_values(|m: Message| m@),
{
    let mut out: Vec<MessageSnapshot> = Vec::new();
    let n = v.len();
    let mut k: usize = 0;
    while k < n
        invariant
            n == v.len(),
            k <= n,
            out@.len() == k,
            forall|j: int| 0 <= j < k ==> (#[trigger] out@[j])@ == v@[j]@,
        decreases n - k,
    {
        out.push(
            MessageSnapshot {
                sender: v[k].sender.clone(),
                content: v[k].content.clone(),
                timestamp: v[k].timestamp,
            },
        );
        k += 1;
    }
    proof {
        assert(out@.map_values(|m: MessageSnapshot| m@) =~= v@.map_values(|m: Message| m@));
    }
    out
}

/// Copy of a snapshot's message history, as stored messages.
fn messages_from_snapshot(v: &Vec<MessageSnapshot>) -> (r: Vec<Message>)
    ensures
        r@.map_values(|m: Message| m@) == v@.map_values(|m: MessageSnapshot| m@),
{
    let mut out: Vec<Message> = Vec::new();
    let n = v.len();
    let mut k: usize = 0;
    while k < n
        invariant
            n == v.len(),
            k <= n,
            out@.len() == k,
            forall|j: int| 0 <= j < k ==> (#[trigger] out@[j])@ == v@[j]@,
        decreases n - k,
    {
        out.push(
            Message {
                sender: v[k].sender.clone(),
                content: v[k].content.clone(),
                timestamp: v[k].timestamp,
            },
        );
        k += 1;
    }
    proof {
        assert(out@.map_values(|m: Message| m@) =~= v@.map_values(|m: MessageSnapshot| m@));
    }
    out
}

/// View of an optionally emitted event.
pub open spec fn event_view(e: Option<Event>) -> Option<EventV> {
    match e {
        Some(ev) => Some(ev@),
        None => None,
    }
}

impl ChatState {
    /// A fresh registry with no rooms and no registered users.
    pub fn init() -> (r: ChatState)
        ensures
            r@ == StateV::empty(),
            r@.wf(),
    {
        let r = ChatState { rooms: Vec::new(), users: Vec::new() };
        proof {
            assert(r@.rooms =~= StateV::empty().rooms);
            assert(r@.users =~= StateV::empty().users);
        }
        r
    }

    /// Whether some registered user already holds `username`.
    fn username_taken(&self, username: &String) -> (r: bool)
        ensures
            r == self@.has_username(username@),
    {
        let n = self.users.len();
        let mut k: usize = 0;
        while k < n
            invariant
                n == self.users.len(),
                k <= n,
                forall|j: int| 0 <= j < k ==> (#[trigger] self@.users[j]).username != username@,
            decreases n - k,
        {
            if self.users[k].username == *username {
                proof {
                    assert(self@.users[k as int] == self.users@[k as int]@);
                    assert(self@.has_username(username@));
                }
                return true;
            }
            proof {
                assert(self@.users[k as int] == self.users@[k as int]@);
            }
            k += 1;
        }
        false
    }

    /// Whether some registered user already holds `wallet_address`.
    fn wallet_taken(&self, wallet_address: &String) -> (r: bool)
        ensures
            r == self@.has_wallet(wallet_address@),
    {
        let n = self.users.len();
        let mut k: usize = 0;
        while k < n
            invariant
                n == self.users.len(),
                k <= n,
                forall|j: int|
                    0 <= j < k ==> (#[trigger] self@.users[j]).wallet_address != wallet_address@,
            decreases n - k,
        {
            if self.users[k].wallet_address == *wallet_address {
                proof {
                    assert(self@.users[k as int] == self.users@[k as int]@);
                    assert(self@.has_wallet(wallet_address@));
                }
                return true;
            }
            proof {
                assert(self@.users[k as int] == self.users@[k as int]@);
            }
            k += 1;
        }
        false
    }

    /// Creates a profile for `username` under `wallet_address` iff neither is
    /// already registered; on success hands back the `UserRegistered` event.
    pub fn register_user(&mut self, username: String, wallet_address: String) -> (r: (bool, Option<Event>))
        requires
            old(self)@.wf(),
        ensures
            final(self)@.wf(),
            final(self)@ == old(self)@.register_user_next(username@, wallet_address@),
            r.0 == old(self)@.register_user_ok(username@, wallet_address@),
            event_view(r.1) == old(self)@.register_user_event(username@, wallet_address@),
    {
        if self.username_taken(&username) || self.wallet_taken(&wallet_address) {
            return (false, None);
        }
        let ev = Event::UserRegistered {
            username: username.clone(),
            wallet_address: wallet_address.clone(),
        };
        let ghost s0 = self@;
        let profile = UserProfile { username, wallet_address };
        let ghost pv = profile@;
        self.users.push(profile);
        proof {
            let tgt = s0.register_user_next(username@, wallet_address@);
            lemma_map_values_push(old(self).users@, |u: UserProfile| u@, profile);
            assert(self@.users =~= s0.users.push(pv));
            assert(self@ =~= tgt);
            lemma_register_user_preserves_wf(s0, username@, wallet_address@);
        }
        (true, Some(ev))
    }

    /// The position of the room named `name`, if it exists.
    fn room_position(&self, name: &String) -> (r: Option<usize>)
        requires
            self@.wf(),
        ensures
            match r {
                Some(i) => {
                    &&& i < self.rooms.len()
                    &&& self@.has_room(name@)
                    &&& self@.room_index(name@) == i as int
                    &&& self@.room(name@) == self@.rooms[i as int]
                },
                None => !self@.has_room(name@),
            },
    {
        let n = self.rooms.len();
        let mut k: usize = 0;
        while k < n
            invariant
                self@.wf(),
                n == self.rooms.len(),
                k <= n,
                forall|j: int| 0 <= j < k ==> (#[trigger] self@.rooms[j]).name != name@,
            decreases n - k,
        {
            if self.rooms[k].name == *name {
                proof {
                    assert(self@.rooms[k as int] == self.rooms@[k as int]@);
                    lemma_room_index(self@, name@, k as int);
                }
                return Some(k);
            }
            proof {
                assert(self@.rooms[k as int] == self.rooms@[k as int]@);
            }
            k += 1;
        }
        None
    }

    /// Creates an empty room named `name` iff no room with that name exists;
    /// the password is stored verbatim and the creator is not made a member.
    /// On success hands back the `RoomCreated` event.
    pub fn create_room(&mut self, name: String, password: String, creator: String, room_type: RoomType) -> (r: (bool, Option<Event>))
        requires
            old(self)@.wf(),
        ensures
            final(self)@.wf(),
            final(self)@ == old(self)@.create_room_next(name@, password@, creator@, room_type),
            r.0 == old(self)@.create_room_ok(name@),
            event_view(r.1) == old(self)@.create_room_event(name@),
    {
        if self.room_position(&name).is_some() {
            return (false, None);
        }
        let ev = Event::RoomCreated { name: name.clone() };
        let ghost s0 = self@;
        let room = Room {
            name,
            room_type,
            password_hash: password,
            messages: Vec::new(),
            users: Vec::new(),
            creator,
        };
        let ghost rv = room@;
        self.rooms.push(room);
        proof {
            let tgt = s0.create_room_next(name@, password@, creator@, room_type);
            lemma_map_values_push(old(self).rooms@, |rm: Room| rm@, room);
            assert(rv.messages =~= Seq::<MessageV>::empty());
            assert(rv.users =~= Seq::<Seq<char>>::empty());
            assert(rv =~= tgt.rooms[s0.rooms.len() as int]);
            assert(self@.rooms =~= s0.rooms.push(rv));
            assert(self@ =~= tgt);
            lemma_create_room_preserves_wf(s0, name@, password@, creator@, room_type);
        }
        (true, Some(ev))
    }

    /// Snapshot of the current room names, in storage order.
    pub fn list_rooms(&self) -> (r: Vec<String>)
        ensures
            r@.map_values(|n: String| n@) == self@.rooms.map_values(|rm: RoomV| rm.name),
    {
        let mut out: Vec<String> = Vec::new();
        let n = self.rooms.len();
        let mut k: usize = 0;
        while k < n
            invariant
                n == self.rooms.len(),
                k <= n,
                out@.len() == k,
                forall|j: int| 0 <= j < k ==> (#[trigger] out@[j])@ == self@.rooms[j].name,
            decreases n - k,
        {
            out.push(self.rooms[k].name.clone());
            proof {
                assert(self@.rooms[k as int] == self.rooms@[k as int]@);
            }
            k += 1;
        }
        proof {
            assert(out@.map_values(|n2: String| n2@) =~= self@.rooms.map_values(|rm: RoomV| rm.name));
        }
        out
    }

    /// Pure lookup of a room's name, type and creator.
    pub fn get_room_info(&self, room_name: String) -> (r: Option<(String, RoomType, String)>)
        requires
            self@.wf(),
        ensures
            match r {
                Some(info) => {
                    &&& self@.has_room(room_name@)
                    &&& info.0@ == self@.room(room_name@).name
                    &&& info.1 == self@.room(room_name@).room_type
                    &&& info.2@ == self@.room(room_name@).creator
                },
                None => !self@.has_room(room_name@),
            },
    {
        match self.room_position(&room_name) {
            Some(i) => {
                proof {
                    assert(self@.rooms[i as int] == self.rooms@[i as int]@);
                }
                let name = self.rooms[i].name.clone();
                let room_type = self.rooms[i].room_type;
                let creator = self.rooms[i].creator.clone();
                Some((name, room_type, creator))
            },
            None => None,
        }
    }

    /// Snapshot copy of a room's membership, in join order; empty when the
    /// room is absent.
    pub fn get_room_users(&self, room_name: String) -> (r: Vec<String>)
        requires
            self@.wf(),
        ensures
            r@.map_values(|u: String| u@) == if self@.has_room(room_name@) {
                self@.room(room_name@).users
            } else {
                Seq::<Seq<char>>::empty()
            },
    {
        match self.room_position(&room_name) {
            Some(i) => {
                proof {
                    assert(self@.rooms[i as int] == self.rooms@[i as int]@);
                }
                let mut out: Vec<String> = Vec::new();
                let n = self.rooms[i].users.len();
                let mut k: usize = 0;
                while k < n
                    invariant
                        i < self.rooms.len(),
                        n == self.rooms@[i as int].users.len(),
                        k <= n,
                        out@.len() == k,
                        forall|j: int|
                            0 <= j < k ==> (#[trigger] out@[j])@ == self.rooms@[i as int].users@[j]@,
                    decreases n - k,
                {
                    out.push(self.rooms[i].users[k].clone());
                    k += 1;
                }
                proof {
                    assert(out@.map_values(|u: String| u@) =~= self@.rooms[i as int].users);
                }
                out
            },
            None => {
                let out: Vec<String> = Vec::new();
                proof {
                    assert(out@.map_values(|u: String| u@) =~= Seq::<Seq<char>>::empty());
                }
                out
            },
        }
    }

    /// Adds `user` to the room's membership iff the room exists and
    /// `password` equals its stored password; a repeated join succeeds
    /// without re-adding. On a first join hands back the `UserJoinedRoom`
    /// event, on a repeated join no event.
    pub fn join_room(&mut self, room_name: String, user: String, password: String) -> (r: (bool, Option<Event>))
        requires
            old(self)@.wf(),
        ensures
            final(self)@.wf(),
            final(self)@ == old(self)@.join_room_next(room_name@, user@, password@),
            r.0 == old(self)@.join_room_ok(room_name@, password@),
            event_view(r.1) == old(self)@.join_room_event(room_name@, user@, password@),
    {
        let i = match self.room_position(&room_name) {
            Some(i) => i,
            None => {
                return (false, None);
            },
        };
        proof {
            assert(self@.rooms[i as int] == self.rooms@[i as int]@);
        }
        if !(self.rooms[i].password_hash == password) {
            return (false, None);
        }
        match member_position(&self.rooms[i].users, &user) {
            Some(j) => {
                proof {
                    assert(self@.rooms[i as int].users[j as int] == user@);
                    assert(self@.room(room_name@).is_member(user@));
                }
                (true, None)
            },
            None => {
                let ghost s0 = self@;
                let ghost iv = i as int;
                proof {
                    assert(!s0.room(room_name@).is_member(user@));
                }
                let mut room = self.rooms.remove(i);
                room.users.push(user.clone());
                let ghost rv1 = room@;
                self.rooms.insert(i, room);
                proof {
                    let tgt = s0.join_room_next(room_name@, user@, password@);
                    let r0 = s0.rooms[iv];
                    assert(self.rooms@ == old(self).rooms@.remove(iv).insert(iv, room));
                    lemma_remove_insert(old(self).rooms@, iv, room);
                    assert(self.rooms@ =~= old(self).rooms@.update(iv, room));
                    lemma_map_values_update(old(self).rooms@, |rm: Room| rm@, iv, room);
                    assert(self@.rooms =~= s0.rooms.update(iv, rv1));
                    lemma_map_values_push(old(self).rooms@[iv].users@, |u: String| u@, user);
                    assert(rv1.users =~= r0.users.push(user@));
                    assert(rv1 =~= tgt.rooms[iv]);
                    assert(self@.rooms =~= tgt.rooms);
                    assert(self@ =~= tgt);
                    lemma_join_room_preserves_wf(s0, room_name@, user@, password@);
                }
                (true, Some(Event::UserJoinedRoom { room: room_name, user }))
            },
        }
    }

    /// Removes `user` from the room's membership iff the room exists and the
    /// user is a member; the order of the remaining members is preserved.
    /// This operation emits no event.
    pub fn leave_room(&mut self, room_name: String, user: String) -> (r: bool)
        requires
            old(self)@.wf(),
        ensures
            final(self)@.wf(),
            final(self)@ == old(self)@.leave_room_next(room_name@, user@),
            r == old(self)@.leave_room_ok(room_name@, user@),
    {
        let i = match self.room_position(&room_name) {
            Some(i) => i,
            None => {
                return false;
            },
        };
        proof {
            assert(self@.rooms[i as int] == self.rooms@[i as int]@);
        }
        match member_position(&self.rooms[i].users, &user) {
            None => {
                proof {
                    assert(!self@.room(room_name@).is_member(user@));
                }
                false
            },
            Some(m) => {
                let ghost s0 = self@;
                let ghost iv = i as int;
                proof {
                    assert(s0.rooms[iv].users[m as int] == user@);
                    assert(s0.rooms[iv].wf());
                    lemma_member_index(s0.rooms[iv], user@, m as int);
                }
                let mut room = self.rooms.remove(i);
                room.users.remove(m);
                let ghost rv1 = room@;
                self.rooms.insert(i, room);
                proof {
                    let tgt = s0.leave_room_next(room_name@, user@);
                    let r0 = s0.rooms[iv];
                    assert(self.rooms@ == old(self).rooms@.remove(iv).insert(iv, room));
                    lemma_remove_insert(old(self).rooms@, iv, room);
                    assert(self.rooms@ =~= old(self).rooms@.update(iv, room));
                    lemma_map_values_update(old(self).rooms@, |rm: Room| rm@, iv, room);
                    assert(self@.rooms =~= s0.rooms.update(iv, rv1));
                    lemma_map_values_remove(old(self).rooms@[iv].users@, |u: String| u@, m as int);
                    assert(rv1.users =~= r0.users.remove(m as int));
                    assert(rv1 =~= tgt.rooms[iv]);
                    assert(self@.rooms =~= tgt.rooms);
                    assert(self@ =~= tgt);
                    lemma_leave_room_preserves_wf(s0, room_name@, user@);
                }
                true
            },
        }
    }

    /// Appends a message to the room's history iff the room exists and the
    /// sender is a member; the stored timestamp is always zero (the registry
    /// never stamps wall-clock time). On success hands back the
    /// `MessageSent` event.
    pub fn send_message(&mut self, room_name: String, sender: String, content: String) -> (r: (bool, Option<Event>))
        requires
            old(self)@.wf(),
        ensures
            final(self)@.wf(),
            final(self)@ == old(self)@.send_message_next(room_name@, sender@, content@),
            r.0 == old(self)@.send_message_ok(room_name@, sender@),
            event_view(r.1) == old(self)@.send_message_event(room_name@, sender@, content@),
    {
        let i = match self.room_position(&room_name) {
            Some(i) => i,
            None => {
                return (false, None);
            },
        };
        proof {
            assert(self@.rooms[i as int] == self.rooms@[i as int]@);
        }
        match member_position(&self.rooms[i].users, &sender) {
            None => {
                proof {
                    assert(!self@.room(room_name@).is_member(sender@));
                }
                (false, None)
            },
            Some(j) => {
                proof {
                    assert(self@.rooms[i as int].users[j as int] == sender@);
                    assert(self@.room(room_name@).is_member(sender@));
                }
                let ev = Event::MessageSent {
                    room: room_name.clone(),
                    sender: sender.clone(),
                    content: content.clone(),
                };
                let ghost s0 = self@;
                let ghost iv = i as int;
                let msg = Message { sender, content, timestamp: 0 };
                let ghost mv = msg@;
                let mut room = self.rooms.remove(i);
                room.messages.push(msg);
                let ghost rv1 = room@;
                self.rooms.insert(i, room);
                proof {
                    let tgt = s0.send_message_next(room_name@, sender@, content@);
                    let r0 = s0.rooms[iv];
                    assert(self.rooms@ == old(self).rooms@.remove(iv).insert(iv, room));
                    lemma_remove_insert(old(self).rooms@, iv, room);
                    assert(self.rooms@ =~= old(self).rooms@.update(iv, room));
                    lemma_map_values_update(old(self).rooms@, |rm: Room| rm@, iv, room);
                    assert(self@.rooms =~= s0.rooms.update(iv, rv1));
                    lemma_map_values_push(old(self).rooms@[iv].messages@, |m: Message| m@, msg);
                    assert(rv1.messages =~= r0.messages.push(mv));
                    assert(rv1 =~= tgt.rooms[iv]);
                    assert(self@.rooms =~= tgt.rooms);
                    assert(self@ =~= tgt);
                    lemma_send_message_preserves_wf(s0, room_name@, sender@, content@);
                }
                (true, Some(ev))
            },
        }
    }

    /// Gatekeeps a peer-signaling payload: succeeds iff the room exists and
    /// both the sender and the receiver are members. The payload is never
    /// stored or interpreted; on success it is handed back inside the
    /// `SignalingMessage` event for out-of-band relay. The registry state is
    /// never changed.
    pub fn send_signaling(&mut self, room_name: String, sender: String, receiver: String, content: String) -> (r: (bool, Option<Event>))
        requires
            old(self)@.wf(),
        ensures
            final(self)@.wf(),
            final(self)@ == old(self)@,
            r.0 == old(self)@.send_signaling_ok(room_name@, sender@, receiver@),
            event_view(r.1) == old(self)@.send_signaling_event(room_name@, sender@, receiver@, content@),
    {
        let i = match self.room_position(&room_name) {
            Some(i) => i,
            None => {
                return (false, None);
            },
        };
        proof {
            assert(self@.rooms[i as int] == self.rooms@[i as int]@);
        }
        match member_position(&self.rooms[i].users, &sender) {
            None => {
                proof {
                    assert(!self@.room(room_name@).is_member(sender@));
                }
                return (false, None);
            },
            Some(js) => {
                proof {
                    assert(self@.rooms[i as int].users[js as int] == sender@);
                    assert(self@.room(room_name@).is_member(sender@));
                }
            },
        }
        match member_position(&self.rooms[i].users, &receiver) {
            None => {
                proof {
                    assert(!self@.room(room_name@).is_member(receiver@));
                }
                return (false, None);
            },
            Some(jr) => {
                proof {
                    assert(self@.rooms[i as int].users[jr as int] == receiver@);
                    assert(self@.room(room_name@).is_member(receiver@));
                }
            },
        }
        (true, Some(Event::SignalingMessage { room: room_name, sender, receiver, content }))
    }

    /// Snapshot of a room's full message history, in append order, as
    /// `(sender, content, timestamp)` triples. Fails closed: the result is
    /// empty when the room is absent or when `user` is not a member, even if
    /// the room and its messages exist.
    pub fn get_room_messages(&self, room_name: String, user: String) -> (r: Vec<(String, String, u64)>)
        requires
            self@.wf(),
        ensures
            r@.map_values(|t: (String, String, u64)| (t.0@, t.1@, t.2))
                == if self@.has_room(room_name@) && self@.room(room_name@).is_member(user@) {
                self@.room(room_name@).messages.map_values(
                    |m: MessageV| (m.sender, m.content, m.timestamp),
                )
            } else {
                Seq::<(Seq<char>, Seq<char>, u64)>::empty()
            },
    {
        let i = match self.room_position(&room_name) {
            Some(i) => i,
            None => {
                let out: Vec<(String, String, u64)> = Vec::new();
                proof {
                    assert(out@.map_values(|t: (String, String, u64)| (t.0@, t.1@, t.2))
                        =~= Seq::<(Seq<char>, Seq<char>, u64)>::empty());
                }
                return out;
            },
        };
        proof {
            assert(self@.rooms[i as int] == self.rooms@[i as int]@);
        }
        match member_position(&self.rooms[i].users, &user) {
            None => {
                proof {
                    assert(!self@.room(room_name@).is_member(user@));
                }
                let out: Vec<(String, String, u64)> = Vec::new();
                proof {
                    assert(out@.map_values(|t: (String, String, u64)| (t.0@, t.1@, t.2))
                        =~= Seq::<(Seq<char>, Seq<char>, u64)>::empty());
                }
                out
            },
            Some(j) => {
                proof {
                    assert(self@.rooms[i as int].users[j as int] == user@);
                    assert(self@.room(room_name@).is_member(user@));
                }
                let mut out: Vec<(String, String, u64)> = Vec::new();
                let n = self.rooms[i].messages.len();
                let mut k: usize = 0;
                while k < n
                    invariant
                        i < self.rooms.len(),
                        n == self.rooms@[i as int].messages.len(),
                        k <= n,
                        out@.len() == k,
                        forall|j2: int| 0 <= j2 < k ==> {
                            &&& (#[trigger] out@[j2]).0@ == self.rooms@[i as int].messages@[j2]@.sender
                            &&& out@[j2].1@ == self.rooms@[i as int].messages@[j2]@.content
                            &&& out@[j2].2 == self.rooms@[i as int].messages@[j2]@.timestamp
                        },
                    decreases n - k,
                {
                    let sender = self.rooms[i].messages[k].sender.clone();
                    let content = self.rooms[i].messages[k].content.clone();
                    let timestamp = self.rooms[i].messages[k].timestamp;
                    out.push((sender, content, timestamp));
                    k += 1;
                }
                proof {
                    assert(out@.map_values(|t: (String, String, u64)| (t.0@, t.1@, t.2))
                        =~= self@.rooms[i as int].messages.map_values(
                        |m: MessageV| (m.sender, m.content, m.timestamp),
                    ));
                }
                out
            },
        }
    }

    /// Removes the room entirely, its messages and membership with it, iff
    /// the room exists and `wallet_address` equals its creator exactly. On
    /// success hands back the `RoomDeleted` event.
    pub fn delete_room(&mut self, room_name: String, wallet_address: String) -> (r: (bool, Option<Event>))
        requires
            old(self)@.wf(),
        ensures
            final(self)@.wf(),
            final(self)@ == old(self)@.delete_room_next(room_name@, wallet_address@),
            r.0 == old(self)@.delete_room_ok(room_name@, wallet_address@),
            event_view(r.1) == old(self)@.delete_room_event(room_name@, wallet_address@),
    {
        let i = match self.room_position(&room_name) {
            Some(i) => i,
            None => {
                return (false, None);
            },
        };
        proof {
            assert(self@.rooms[i as int] == self.rooms@[i as int]@);
        }
        if !(self.rooms[i].creator == wallet_address) {
            return (false, None);
        }
        let ghost s0 = self@;
        let ghost iv = i as int;
        self.rooms.remove(i);
        proof {
            let tgt = s0.delete_room_next(room_name@, wallet_address@);
            lemma_map_values_remove(old(self).rooms@, |rm: Room| rm@, iv);
            assert(self@.rooms =~= s0.rooms.remove(iv));
            assert(self@ =~= tgt);
            lemma_delete_room_preserves_wf(s0, room_name@, wallet_address@);
        }
        (true, Some(Event::RoomDeleted { name: room_name }))
    }

    /// The whole registry state as plain values, for the host to encode
    /// into its durable store. The snapshot carries exactly the state.
    pub fn snapshot(&self) -> (r: RegistrySnapshot)
        ensures
            r@ == self@,
    {
        let mut rooms: Vec<RoomSnapshot> = Vec::new();
        let n = self.rooms.len();
        let mut k: usize = 0;
        while k < n
            invariant
                n == self.rooms.len(),
                k <= n,
                rooms@.len() == k,
                forall|j: int| 0 <= j < k ==> (#[trigger] rooms@[j])@ == self.rooms@[j]@,
            decreases n - k,
        {
            let room = &self.rooms[k];
            let snap = RoomSnapshot {
                name: room.name.clone(),
                room_type: room.room_type,
                password_hash: room.password_hash.clone(),
                messages: messages_to_snapshot(&room.messages),
                users: copy_strings(&room.users),
                creator: room.creator.clone(),
            };
            proof {
                assert(snap@ =~= self.rooms@[k as int]@);
            }
            rooms.push(snap);
            k += 1;
        }
        let mut users: Vec<UserSnapshot> = Vec::new();
        let m = self.users.len();
        let mut k2: usize = 0;
        while k2 < m
            invariant
                m == self.users.len(),
                k2 <= m,
                users@.len() == k2,
                forall|j: int| 0 <= j < k2 ==> (#[trigger] users@[j])@ == self.users@[j]@,
            decreases m - k2,
        {
            users.push(
                UserSnapshot {
                    username: self.users[k2].username.clone(),
                    wallet_address: self.users[k2].wallet_address.clone(),
                },
            );
            k2 += 1;
        }
        let r = RegistrySnapshot { rooms, users };
        proof {
            assert(r@.rooms =~= self@.rooms);
            assert(r@.users =~= self@.users);
            assert(r@ =~= self@);
        }
        r
    }

    /// Rebuilds a registry from a snapshot. Succeeds iff the data satisfies
    /// the registry invariant (unique room names, unique user identities,
    /// duplicate-free memberships); the restored registry then holds exactly
    /// the snapshot's state, so a snapshot round trip reproduces the
    /// registry.
    pub fn restore(data: &RegistrySnapshot) -> (r: Option<ChatState>)
        ensures
            match r {
                Some(st) => data@.wf() && st@ == data@ && st@.wf(),
                None => !data@.wf(),
            },
    {
        if !snapshot_wf(data) {
            return None;
        }
        let mut rooms: Vec<Room> = Vec::new();
        let n = data.rooms.len();
        let mut k: usize = 0;
        while k < n
            invariant
                n == data.rooms.len(),
                k <= n,
                rooms@.len() == k,
                forall|j: int| 0 <= j < k ==> (#[trigger] rooms@[j])@ == data.rooms@[j]@,
            decreases n - k,
        {
            let snap = &data.rooms[k];
            let room = Room {
                name: snap.name.clone(),
                room_type: snap.room_type,
                password_hash: snap.password_hash.clone(),
                messages: messages_from_snapshot(&snap.messages),
                users: copy_strings(&snap.users),
                creator: snap.creator.clone(),
            };
            proof {
                assert(room@ =~= data.rooms@[k as int]@);
            }
            rooms.push(room);
            k += 1;
        }
        let mut users: Vec<UserProfile> = Vec::new();
        let m = data.users.len();
        let mut k2: usize = 0;
        while k2 < m
            invariant
                m == data.users.len(),
                k2 <= m,
                users@.len() == k2,
                forall|j: int| 0 <= j < k2 ==> (#[trigger] users@[j])@ == data.users@[j]@,
            decreases m - k2,
        {
            users.push(
                UserProfile {
                    username: data.users[k2].username.clone(),
                    wallet_address: data.users[k2].wallet_address.clone(),
                },
            );
            k2 += 1;
        }
        let st = ChatState { rooms, users };
        proof {
            assert(st@.rooms =~= data@.rooms);
            assert(st@.users =~= data@.users);
            assert(st@ =~= data@);
        }
        Some(st)
    }

    /// Pure lookup of the username registered under `wallet_address`.
    pub fn get_username(&self, wallet_address: String) -> (r: Option<String>)
        requires
            self@.wf(),
        ensures
            match r {
                Some(u) => self@.has_wallet(wallet_address@) && u@ == self@.username_of(wallet_address@),
                None => !self@.has_wallet(wallet_address@),
            },
    {
        let n = self.users.len();
        let mut k: usize = 0;
        while k < n
            invariant
                self@.wf(),
                n == self.users.len(),
                k <= n,
                forall|j: int|
                    0 <= j < k ==> (#[trigger] self@.users[j]).wallet_address != wallet_address@,
            decreases n - k,
        {
            if self.users[k].wallet_address == wallet_address {
                let u = self.users[k].username.clone();
                proof {
                    assert(self@.users[k as int] == self.users@[k as int]@);
                    lemma_wallet_index(self@, wallet_address@, k as int);
                }
                return Some(u);
            }
            proof {
                assert(self@.users[k as int] == self.users@[k as int]@);
            }
            k += 1;
        }
        None
    }

    /// Pure lookup of the wallet address registered under `username`.
    pub fn get_wallet_address(&self, username: String) -> (r: Option<String>)
        requires
            self@.wf(),
        ensures
            match r {
                Some(w) => self@.has_username(username@) && w@ == self@.wallet_of(username@),
                None => !self@.has_username(username@),
            },
    {
        let n = self.users.len();
        let mut k: usize = 0;
        while k < n
            invariant
                self@.wf(),
                n == self.users.len(),
                k <= n,
                forall|j: int| 0 <= j < k ==> (#[trigger] self@.users[j]).username != username@,
            decreases n - k,
        {
            if self.users[k].username == username {
                let w = self.users[k].wallet_address.clone();
                proof {
                    assert(self@.users[k as int] == self.users@[k as int]@);
                    lemma_username_index(self@, username@, k as int);
                }
                return Some(w);
            }
            proof {
                assert(self@.users[k as int] == self.users@[k as int]@);
            }
            k += 1;
        }
        None
    }
}

} // verus!
