//! Plain-value snapshots of the registry.
//!
//! The registry state must survive a trip through an external durable
//! store. The snapshot types here carry the whole state as public plain
//! values, so a host can encode them in whatever format its store uses;
//! `ChatState::snapshot` and `ChatState::restore` prove that the trip
//! reproduces the state exactly, and that restoring rejects data that
//! breaks the registry invariant.

use vstd::prelude::*;
use crate::model::{MessageV, RoomV, StateV, UserV};
use crate::registry::RoomType;

verus! {

/// One message, as stored.
pub struct MessageSnapshot {
    pub sender: String,
    pub content: String,
    pub timestamp: u64,
}

/// One room with its full history and membership.
pub struct RoomSnapshot {
    pub name: String,
    pub room_type: RoomType,
    pub password_hash: String,
    pub messages: Vec<MessageSnapshot>,
    pub users: Vec<String>,
    pub creator: String,
}

/// One registered user.
pub struct UserSnapshot {
    pub username: String,
    pub wallet_address: String,
}

/// The whole registry state.
pub struct RegistrySnapshot {
    pub rooms: Vec<RoomSnapshot>,
    pub users: Vec<UserSnapshot>,
}

impl View for MessageSnapshot {
    type V = MessageV;

    open spec fn view(&self) -> MessageV {
        MessageV { sender: self.sender@, content: self.content@, timestamp: self.timestamp }
    }
}

impl View for RoomSnapshot {
    type V = RoomV;

    open spec fn view(&self) -> RoomV {
        RoomV {
            name: self.name@,
            room_type: self.room_type,
            password: self.password_hash@,
            messages: self.messages@.map_values(|m: MessageSnapshot| m@),
            users: self.users@.map_values(|u: String| u@),
            creator: self.creator@,
        }
    }
}

impl View for UserSnapshot {
    type V = UserV;

    open spec fn view(&self) -> UserV {
        UserV { username: self.username@, wallet_address: self.wallet_address@ }
    }
}

impl View for RegistrySnapshot {
    type V = StateV;

    open spec fn view(&self) -> StateV {
        StateV {
            rooms: self.rooms@.map_values(|r: RoomSnapshot| r@),
            users: self.users@.map_values(|u: UserSnapshot| u@),
        }
    }
}

/// Whether a list of strings is duplicate-free.
fn strings_distinct(v: &Vec<String>) -> (r: bool)
    ensures
        r == (forall|a: int, b: int| 0 <= a < b < v@.len() ==> (#[trigger] v@[a])@ != (#[trigger] v@[b])@),
{
    let n = v.len();
    let mut i: usize = 0;
    while i < n
        invariant
            n == v.len(),
            i <= n,
            forall|a: int, b: int| 0 <= a < b < i ==> (#[trigger] v@[a])@ != (#[trigger] v@[b])@,
        decreases n - i,
    {
        let mut j: usize = 0;
        while j < i
            invariant
                i < n,
                n == v.len(),
                j <= i,
                forall|a: int, b: int| 0 <= a < b < i ==> (#[trigger] v@[a])@ != (#[trigger] v@[b])@,
                forall|a: int| 0 <= a < j ==> (#[trigger] v@[a])@ != v@[i as int]@,
            decreases i - j,
        {
            if v[j] == v[i] {
                return false;
            }
            j += 1;
        }
        i += 1;
    }
    true
}

/// Whether all room names in a snapshot are distinct.
fn room_names_distinct(rooms: &Vec<RoomSnapshot>) -> (r: bool)
    ensures
        r == (forall|a: int, b: int|
            0 <= a < b < rooms@.len() ==> (#[trigger] rooms@[a])@.name != (#[trigger] rooms@[b])@.name),
{
    let n = rooms.len();
    let mut i: usize = 0;
    while i < n
        invariant
            n == rooms.len(),
            i <= n,
            forall|a: int, b: int|
                0 <= a < b < i ==> (#[trigger] rooms@[a])@.name != (#[trigger] rooms@[b])@.name,
        decreases n - i,
    {
        let mut j: usize = 0;
        while j < i
            invariant
                i < n,
                n == rooms.len(),
                j <= i,
                forall|a: int, b: int|
                    0 <= a < b < i ==> (#[trigger] rooms@[a])@.name != (#[trigger] rooms@[b])@.name,
                forall|a: int| 0 <= a < j ==> (#[trigger] rooms@[a])@.name != rooms@[i as int]@.name,
            decreases i - j,
        {
            if rooms[j].name == rooms[i].name {
                return false;
            }
            j += 1;
        }
        i += 1;
    }
    true
}

/// Whether all usernames and all wallet addresses in a snapshot are distinct.
fn profiles_distinct(users: &Vec<UserSnapshot>) -> (r: bool)
    ensures
        r == ((forall|a: int, b: int|
            0 <= a < b < users@.len()
                ==> (#[trigger] users@[a])@.username != (#[trigger] users@[b])@.username)
            && (forall|a: int, b: int|
            0 <= a < b < users@.len()
                ==> (#[trigger] users@[a])@.wallet_address != (#[trigger] users@[b])@.wallet_address)),
{
    let n = users.len();
    let mut i: usize = 0;
    while i < n
        invariant
            n == users.len(),
            i <= n,
            forall|a: int, b: int|
                0 <= a < b < i ==> (#[trigger] users@[a])@.username != (#[trigger] users@[b])@.username,
            forall|a: int, b: int|
                0 <= a < b < i
                    ==> (#[trigger] users@[a])@.wallet_address != (#[trigger] users@[b])@.wallet_address,
        decreases n - i,
    {
        let mut j: usize = 0;
        while j < i
            invariant
                i < n,
                n == users.len(),
                j <= i,
                forall|a: int, b: int|
                    0 <= a < b < i
                        ==> (#[trigger] users@[a])@.username != (#[trigger] users@[b])@.username,
                forall|a: int, b: int|
                    0 <= a < b < i
                        ==> (#[trigger] users@[a])@.wallet_address
                            != (#[trigger] users@[b])@.wallet_address,
                forall|a: int| 0 <= a < j ==> (#[trigger] users@[a])@.username != users@[i as int]@.username,
                forall|a: int|
                    0 <= a < j
                        ==> (#[trigger] users@[a])@.wallet_address != users@[i as int]@.wallet_address,
            decreases i - j,
        {
            if users[j].username == users[i].username {
                return false;
            }
            if users[j].wallet_address == users[i].wallet_address {
                return false;
            }
            j += 1;
        }
        i += 1;
    }
    true
}

/// Whether every room in a snapshot has a duplicate-free membership list.
fn memberships_distinct(rooms: &Vec<RoomSnapshot>) -> (r: bool)
    ensures
        r == (forall|k: int| 0 <= k < rooms@.len() ==> ((#[trigger] rooms@[k])@).wf()),
{
    let n = rooms.len();
    let mut k: usize = 0;
    while k < n
        invariant
            n == rooms.len(),
            k <= n,
            forall|k2: int| 0 <= k2 < k ==> ((#[trigger] rooms@[k2])@).wf(),
        decreases n - k,
    {
        let ghost rv = rooms@[k as int]@;
        if !strings_distinct(&rooms[k].users) {
            proof {
                if rv.wf() {
                    assert forall|a: int, b: int| 0 <= a < b < rooms@[k as int].users@.len()
                        implies (rooms@[k as int].users@[a])@ != (rooms@[k as int].users@[b])@ by {
                        assert(rv.users[a] == rooms@[k as int].users@[a]@);
                        assert(rv.users[b] == rooms@[k as int].users@[b]@);
                    }
                    assert(false);
                }
            }
            return false;
        }
        proof {
            assert forall|a: int, b: int| 0 <= a < b < rv.users.len()
                implies rv.users[a] != rv.users[b] by {
                assert(rv.users[a] == rooms@[k as int].users@[a]@);
                assert(rv.users[b] == rooms@[k as int].users@[b]@);
            }
            assert(rv.wf());
        }
        k += 1;
    }
    true
}

/// Whether a snapshot satisfies the registry invariant: unique room names,
/// unique user identities, duplicate-free memberships.
pub fn snapshot_wf(data: &RegistrySnapshot) -> (r: bool)
    ensures
        r == data@.wf(),
{
    let rooms_ok = room_names_distinct(&data.rooms);
    let users_ok = profiles_distinct(&data.users);
    let members_ok = memberships_distinct(&data.rooms);
    proof {
        assert(forall|a: int| 0 <= a < data.rooms@.len()
            ==> data@.rooms[a] == (#[trigger] data.rooms@[a])@);
        assert(forall|a: int| 0 <= a < data.users@.len()
            ==> data@.users[a] == (#[trigger] data.users@[a])@);
        if rooms_ok && users_ok && members_ok {
            assert(data@.rooms_unique());
            assert(data@.users_unique());
            assert(forall|k: int| 0 <= k < data@.rooms.len() ==> (#[trigger] data@.rooms[k]).wf());
        }
        if data@.wf() {
            assert forall|a: int, b: int| 0 <= a < b < data.rooms@.len()
                implies (#[trigger] data.rooms@[a])@.name != (#[trigger] data.rooms@[b])@.name by {
                assert(data@.rooms[a] == data.rooms@[a]@);
                assert(data@.rooms[b] == data.rooms@[b]@);
            }
            assert forall|a: int, b: int| 0 <= a < b < data.users@.len()
                implies (#[trigger] data.users@[a])@.username != (#[trigger] data.users@[b])@.username
                    && data.users@[a]@.wallet_address != data.users@[b]@.wallet_address by {
                assert(data@.users[a] == data.users@[a]@);
                assert(data@.users[b] == data.users@[b]@);
            }
            assert forall|k: int| 0 <= k < data.rooms@.len()
                implies ((#[trigger] data.rooms@[k])@).wf() by {
                assert(data@.rooms[k] == data.rooms@[k]@);
            }
        }
    }
    rooms_ok && users_ok && members_ok
}

} // verus!
