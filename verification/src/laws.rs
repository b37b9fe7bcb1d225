//! Laws of the registry, proved once and for all over the model.
//!
//! Each operation's contract equates its result with the model's `*_ok`,
//! `*_next` and `*_event` functions, so a law proved here about those
//! functions holds of every call of the corresponding operation.

use vstd::prelude::*;
use crate::model::{lemma_join_room_preserves_wf, lemma_room_index, EventV, StateV};

verus! {

/// Idempotence of joining: after a first join with valid credentials adds
/// the user and yields the join event, a second join with the same
/// credentials succeeds, leaves the membership exactly as it was (the user
/// appears once), and yields no event.
pub proof fn join_room_idempotent(s: StateV, room_name: Seq<char>, user: Seq<char>, password: Seq<char>)
    requires
        s.wf(),
        s.join_room_ok(room_name, password),
        !s.room(room_name).is_member(user),
    ensures
        ({
            let s1 = s.join_room_next(room_name, user, password);
            &&& s1.room(room_name).users == s.room(room_name).users.push(user)
            &&& s1.room(room_name).is_member(user)
            &&& s1.room(room_name).wf()
            &&& s.join_room_event(room_name, user, password)
                == Some(EventV::UserJoinedRoom { room: room_name, user })
            &&& s1.join_room_ok(room_name, password)
            &&& s1.join_room_next(room_name, user, password) == s1
            &&& s1.join_room_event(room_name, user, password) is None
        }),
{
    let s1 = s.join_room_next(room_name, user, password);
    let i = s.room_index(room_name);
    assert(0 <= i < s.rooms.len() && s.rooms[i].name == room_name);
    let r0 = s.rooms[i];
    let r1 = s1.rooms[i];
    lemma_join_room_preserves_wf(s, room_name, user, password);
    lemma_room_index(s1, room_name, i);
    assert(s1.room(room_name) == r1);
    assert(r1.users == r0.users.push(user));
    assert(r1.users[r0.users.len() as int] == user);
    assert(r1.is_member(user));
}

/// Uniqueness of registration: once a registration has succeeded, any later
/// registration reusing the same username or the same wallet address fails
/// and changes nothing.
pub proof fn register_user_unique(
    s: StateV,
    username: Seq<char>,
    wallet_address: Seq<char>,
    other_username: Seq<char>,
    other_wallet: Seq<char>,
)
    requires
        s.wf(),
        s.register_user_ok(username, wallet_address),
        other_username == username || other_wallet == wallet_address,
    ensures
        ({
            let s1 = s.register_user_next(username, wallet_address);
            &&& !s1.register_user_ok(other_username, other_wallet)
            &&& s1.register_user_next(other_username, other_wallet) == s1
            &&& s1.register_user_event(other_username, other_wallet) is None
        }),
{
    let s1 = s.register_user_next(username, wallet_address);
    let n = s.users.len() as int;
    assert(s1.users[n].username == username);
    assert(s1.users[n].wallet_address == wallet_address);
    if other_username == username {
        assert(s1.has_username(other_username));
    } else {
        assert(s1.has_wallet(other_wallet));
    }
}

/// Deletion authorization: the creator, and only the creator, can delete a
/// room; the room is then gone. Any other caller fails and the room stays,
/// its message history intact.
pub proof fn delete_room_authorization(s: StateV, room_name: Seq<char>, caller: Seq<char>)
    requires
        s.wf(),
        s.has_room(room_name),
    ensures
        caller == s.room(room_name).creator ==> {
            &&& s.delete_room_ok(room_name, caller)
            &&& !s.delete_room_next(room_name, caller).has_room(room_name)
        },
        caller != s.room(room_name).creator ==> {
            &&& !s.delete_room_ok(room_name, caller)
            &&& s.delete_room_next(room_name, caller) == s
            &&& s.delete_room_next(room_name, caller).room(room_name).messages
                == s.room(room_name).messages
        },
{
    if caller == s.room(room_name).creator {
        let s1 = s.delete_room_next(room_name, caller);
        let i = s.room_index(room_name);
        assert(0 <= i < s.rooms.len() && s.rooms[i].name == room_name);
        assert forall|j: int| 0 <= j < s1.rooms.len()
            implies (#[trigger] s1.rooms[j]).name != room_name by {
            let j2 = if j < i { j } else { j + 1 };
            assert(s1.rooms[j] == s.rooms[j2]);
            if j2 < i {
                assert(s.rooms[j2].name != s.rooms[i].name);
            } else {
                assert(s.rooms[i].name != s.rooms[j2].name);
            }
        }
        assert(!s1.has_room(room_name));
    }
}

} // verus!

