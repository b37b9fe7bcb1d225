use chat_registry::{ChatState, Event, RoomType};

fn room_with_members(st: &mut ChatState) {
    let (ok, _) = st.create_room(
        "r1".to_string(),
        "pw".to_string(),
        "alice".to_string(),
        RoomType::Chat,
    );
    assert!(ok);
    let (ok, _) = st.join_room("r1".to_string(), "alice".to_string(), "pw".to_string());
    assert!(ok);
    let (ok, _) = st.join_room("r1".to_string(), "bob".to_string(), "pw".to_string());
    assert!(ok);
}

#[test]
fn end_to_end_scenario() {
    let mut st = ChatState::init();
    let (ok, _) = st.create_room(
        "r1".to_string(),
        "pw".to_string(),
        "alice".to_string(),
        RoomType::Chat,
    );
    assert!(ok);
    let (ok, _) = st.join_room("r1".to_string(), "alice".to_string(), "pw".to_string());
    assert!(ok);
    let (ok, _) = st.join_room("r1".to_string(), "bob".to_string(), "wrong".to_string());
    assert!(!ok);
    let (ok, _) = st.join_room("r1".to_string(), "bob".to_string(), "pw".to_string());
    assert!(ok);
    let (ok, _) = st.send_message("r1".to_string(), "alice".to_string(), "hi".to_string());
    assert!(ok);
    let messages = st.get_room_messages("r1".to_string(), "bob".to_string());
    assert_eq!(
        messages,
        vec![("alice".to_string(), "hi".to_string(), 0u64)]
    );
    assert!(st.leave_room("r1".to_string(), "alice".to_string()));
    let users = st.get_room_users("r1".to_string());
    assert_eq!(users, vec!["bob".to_string()]);
}

#[test]
fn join_room_twice_is_idempotent() {
    let mut st = ChatState::init();
    let (ok, _) = st.create_room(
        "r1".to_string(),
        "pw".to_string(),
        "alice".to_string(),
        RoomType::Chat,
    );
    assert!(ok);
    let (ok, ev) = st.join_room("r1".to_string(), "alice".to_string(), "pw".to_string());
    assert!(ok);
    match ev {
        Some(Event::UserJoinedRoom { room, user }) => {
            assert_eq!(room, "r1");
            assert_eq!(user, "alice");
        }
        _ => panic!("expected a join event on the first join"),
    }
    let (ok, ev) = st.join_room("r1".to_string(), "alice".to_string(), "pw".to_string());
    assert!(ok);
    assert!(ev.is_none());
    let users = st.get_room_users("r1".to_string());
    assert_eq!(users, vec!["alice".to_string()]);
}

#[test]
fn register_user_enforces_uniqueness() {
    let mut st = ChatState::init();
    let (ok, ev) = st.register_user("alice".to_string(), "0x1".to_string());
    assert!(ok);
    match ev {
        Some(Event::UserRegistered { username, wallet_address }) => {
            assert_eq!(username, "alice");
            assert_eq!(wallet_address, "0x1");
        }
        _ => panic!("expected a registration event"),
    }
    let (ok, ev) = st.register_user("alice".to_string(), "0x2".to_string());
    assert!(!ok);
    assert!(ev.is_none());
    let (ok, ev) = st.register_user("bob".to_string(), "0x1".to_string());
    assert!(!ok);
    assert!(ev.is_none());
    assert_eq!(st.get_username("0x1".to_string()), Some("alice".to_string()));
    assert_eq!(st.get_username("0x2".to_string()), None);
    assert_eq!(st.get_wallet_address("bob".to_string()), None);
    assert_eq!(
        st.get_wallet_address("alice".to_string()),
        Some("0x1".to_string())
    );
}

#[test]
fn get_room_messages_is_gated_on_membership() {
    let mut st = ChatState::init();
    room_with_members(&mut st);
    let (ok, _) = st.send_message("r1".to_string(), "alice".to_string(), "hi".to_string());
    assert!(ok);
    // The room and the message exist, but a non-member reads nothing.
    let messages = st.get_room_messages("r1".to_string(), "carol".to_string());
    assert!(messages.is_empty());
    // An absent room also reads as empty.
    let messages = st.get_room_messages("nowhere".to_string(), "alice".to_string());
    assert!(messages.is_empty());
    // A member reads the full history.
    let messages = st.get_room_messages("r1".to_string(), "bob".to_string());
    assert_eq!(
        messages,
        vec![("alice".to_string(), "hi".to_string(), 0u64)]
    );
}

#[test]
fn send_signaling_requires_both_members() {
    let mut st = ChatState::init();
    room_with_members(&mut st);
    let (ok, ev) = st.send_signaling(
        "r1".to_string(),
        "carol".to_string(),
        "bob".to_string(),
        "sdp".to_string(),
    );
    assert!(!ok);
    assert!(ev.is_none());
    let (ok, ev) = st.send_signaling(
        "r1".to_string(),
        "alice".to_string(),
        "carol".to_string(),
        "sdp".to_string(),
    );
    assert!(!ok);
    assert!(ev.is_none());
    let (ok, ev) = st.send_signaling(
        "nowhere".to_string(),
        "alice".to_string(),
        "bob".to_string(),
        "sdp".to_string(),
    );
    assert!(!ok);
    assert!(ev.is_none());
    let (ok, ev) = st.send_signaling(
        "r1".to_string(),
        "alice".to_string(),
        "bob".to_string(),
        "sdp".to_string(),
    );
    assert!(ok);
    match ev {
        Some(Event::SignalingMessage { room, sender, receiver, content }) => {
            assert_eq!(room, "r1");
            assert_eq!(sender, "alice");
            assert_eq!(receiver, "bob");
            assert_eq!(content, "sdp");
        }
        _ => panic!("expected a signaling event"),
    }
}

#[test]
fn delete_room_requires_the_creator() {
    let mut st = ChatState::init();
    room_with_members(&mut st);
    let (ok, _) = st.send_message("r1".to_string(), "bob".to_string(), "hello".to_string());
    assert!(ok);
    // A non-creator cannot delete; the room and its messages survive.
    let (ok, ev) = st.delete_room("r1".to_string(), "bob".to_string());
    assert!(!ok);
    assert!(ev.is_none());
    assert!(st.get_room_info("r1".to_string()).is_some());
    let messages = st.get_room_messages("r1".to_string(), "alice".to_string());
    assert_eq!(
        messages,
        vec![("bob".to_string(), "hello".to_string(), 0u64)]
    );
    // The creator can, and the room is gone entirely.
    let (ok, ev) = st.delete_room("r1".to_string(), "alice".to_string());
    assert!(ok);
    match ev {
        Some(Event::RoomDeleted { name }) => assert_eq!(name, "r1"),
        _ => panic!("expected a deletion event"),
    }
    assert!(st.get_room_info("r1".to_string()).is_none());
    assert!(st.get_room_users("r1".to_string()).is_empty());
    // Deleting an absent room fails too.
    let (ok, ev) = st.delete_room("r1".to_string(), "alice".to_string());
    assert!(!ok);
    assert!(ev.is_none());
}

#[test]
fn create_room_rejects_duplicate_names() {
    let mut st = ChatState::init();
    let (ok, ev) = st.create_room(
        "r1".to_string(),
        "pw".to_string(),
        "alice".to_string(),
        RoomType::Chat,
    );
    assert!(ok);
    match ev {
        Some(Event::RoomCreated { name }) => assert_eq!(name, "r1"),
        _ => panic!("expected a creation event"),
    }
    let (ok, ev) = st.create_room(
        "r1".to_string(),
        "other".to_string(),
        "bob".to_string(),
        RoomType::Voice,
    );
    assert!(!ok);
    assert!(ev.is_none());
    // The original room is untouched.
    let info = st.get_room_info("r1".to_string()).unwrap();
    assert_eq!(info.0, "r1");
    assert!(matches!(info.1, RoomType::Chat));
    assert_eq!(info.2, "alice");
}

#[test]
fn creator_is_not_automatically_a_member() {
    let mut st = ChatState::init();
    let (ok, _) = st.create_room(
        "r1".to_string(),
        "pw".to_string(),
        "alice".to_string(),
        RoomType::Chat,
    );
    assert!(ok);
    // Creating a room does not join its creator.
    assert!(st.get_room_users("r1".to_string()).is_empty());
    let (ok, ev) = st.send_message("r1".to_string(), "alice".to_string(), "hi".to_string());
    assert!(!ok);
    assert!(ev.is_none());
    // Joining is an explicit separate step.
    let (ok, _) = st.join_room("r1".to_string(), "alice".to_string(), "pw".to_string());
    assert!(ok);
    assert_eq!(st.get_room_users("r1".to_string()), vec!["alice".to_string()]);
}

#[test]
fn join_room_failures() {
    let mut st = ChatState::init();
    let (ok, ev) = st.join_room("nowhere".to_string(), "alice".to_string(), "pw".to_string());
    assert!(!ok);
    assert!(ev.is_none());
    let (ok, _) = st.create_room(
        "r1".to_string(),
        "pw".to_string(),
        "alice".to_string(),
        RoomType::Chat,
    );
    assert!(ok);
    let (ok, ev) = st.join_room("r1".to_string(), "alice".to_string(), "wrong".to_string());
    assert!(!ok);
    assert!(ev.is_none());
    assert!(st.get_room_users("r1".to_string()).is_empty());
}

#[test]
fn leave_room_failures_and_order() {
    let mut st = ChatState::init();
    assert!(!st.leave_room("nowhere".to_string(), "alice".to_string()));
    room_with_members(&mut st);
    let (ok, _) = st.join_room("r1".to_string(), "carol".to_string(), "pw".to_string());
    assert!(ok);
    // A non-member cannot leave.
    assert!(!st.leave_room("r1".to_string(), "dave".to_string()));
    // Removal keeps the order of the remaining members.
    assert!(st.leave_room("r1".to_string(), "bob".to_string()));
    assert_eq!(
        st.get_room_users("r1".to_string()),
        vec!["alice".to_string(), "carol".to_string()]
    );
    // Leaving twice fails the second time.
    assert!(st.leave_room("r1".to_string(), "alice".to_string()));
    assert!(!st.leave_room("r1".to_string(), "alice".to_string()));
    assert_eq!(st.get_room_users("r1".to_string()), vec!["carol".to_string()]);
}

#[test]
fn send_message_records_sender_content_and_zero_timestamp() {
    let mut st = ChatState::init();
    room_with_members(&mut st);
    let (ok, ev) = st.send_message("r1".to_string(), "bob".to_string(), "hey".to_string());
    assert!(ok);
    match ev {
        Some(Event::MessageSent { room, sender, content }) => {
            assert_eq!(room, "r1");
            assert_eq!(sender, "bob");
            assert_eq!(content, "hey");
        }
        _ => panic!("expected a message event"),
    }
    let (ok, _) = st.send_message("r1".to_string(), "alice".to_string(), "yo".to_string());
    assert!(ok);
    // History comes back in append order, every timestamp zero.
    let messages = st.get_room_messages("r1".to_string(), "alice".to_string());
    assert_eq!(
        messages,
        vec![
            ("bob".to_string(), "hey".to_string(), 0u64),
            ("alice".to_string(), "yo".to_string(), 0u64),
        ]
    );
    // A non-member cannot send.
    let (ok, ev) = st.send_message("r1".to_string(), "carol".to_string(), "hi".to_string());
    assert!(!ok);
    assert!(ev.is_none());
    // Signaling payloads are never stored.
    let (ok, _) = st.send_signaling(
        "r1".to_string(),
        "alice".to_string(),
        "bob".to_string(),
        "sdp".to_string(),
    );
    assert!(ok);
    assert_eq!(
        st.get_room_messages("r1".to_string(), "alice".to_string()).len(),
        2
    );
}

#[test]
fn list_rooms_snapshots_current_names() {
    let mut st = ChatState::init();
    assert!(st.list_rooms().is_empty());
    let (ok, _) = st.create_room(
        "r1".to_string(),
        "pw".to_string(),
        "alice".to_string(),
        RoomType::Chat,
    );
    assert!(ok);
    let (ok, _) = st.create_room(
        "r2".to_string(),
        "pw".to_string(),
        "bob".to_string(),
        RoomType::Voice,
    );
    assert!(ok);
    let rooms = st.list_rooms();
    assert_eq!(rooms.len(), 2);
    assert!(rooms.contains(&"r1".to_string()));
    assert!(rooms.contains(&"r2".to_string()));
    let (ok, _) = st.delete_room("r1".to_string(), "alice".to_string());
    assert!(ok);
    assert_eq!(st.list_rooms(), vec!["r2".to_string()]);
}

#[test]
fn get_room_info_reports_name_type_and_creator() {
    let mut st = ChatState::init();
    assert!(st.get_room_info("r1".to_string()).is_none());
    let (ok, _) = st.create_room(
        "r1".to_string(),
        "pw".to_string(),
        "alice".to_string(),
        RoomType::Voice,
    );
    assert!(ok);
    let (name, room_type, creator) = st.get_room_info("r1".to_string()).unwrap();
    assert_eq!(name, "r1");
    assert!(matches!(room_type, RoomType::Voice));
    assert_eq!(creator, "alice");
}

#[test]
fn lookups_on_empty_registry() {
    let st = ChatState::init();
    assert_eq!(st.get_username("0x1".to_string()), None);
    assert_eq!(st.get_wallet_address("alice".to_string()), None);
    assert!(st.list_rooms().is_empty());
    assert!(st.get_room_users("r1".to_string()).is_empty());
    assert!(st.get_room_messages("r1".to_string(), "alice".to_string()).is_empty());
}

#[test]
fn registrations_and_rooms_are_independent() {
    let mut st = ChatState::init();
    let (ok, _) = st.register_user("alice".to_string(), "0x1".to_string());
    assert!(ok);
    // Joining a room does not require registration: membership identifiers
    // are plain strings.
    let (ok, _) = st.create_room(
        "r1".to_string(),
        "pw".to_string(),
        "0x1".to_string(),
        RoomType::Chat,
    );
    assert!(ok);
    let (ok, _) = st.join_room("r1".to_string(), "someone".to_string(), "pw".to_string());
    assert!(ok);
    assert_eq!(st.get_room_users("r1".to_string()), vec!["someone".to_string()]);
}
