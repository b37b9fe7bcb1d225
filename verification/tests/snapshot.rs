use chat_registry::{
    ChatState, MessageSnapshot, RegistrySnapshot, RoomSnapshot, RoomType, UserSnapshot,
};

fn populated_registry() -> ChatState {
    let mut st = ChatState::init();
    let (ok, _) = st.register_user("alice".to_string(), "0x1".to_string());
    assert!(ok);
    let (ok, _) = st.register_user("bob".to_string(), "0x2".to_string());
    assert!(ok);
    let (ok, _) = st.create_room(
        "r1".to_string(),
        "pw".to_string(),
        "alice".to_string(),
        RoomType::Chat,
    );
    assert!(ok);
    let (ok, _) = st.create_room(
        "calls".to_string(),
        "secret".to_string(),
        "bob".to_string(),
        RoomType::Voice,
    );
    assert!(ok);
    let (ok, _) = st.join_room("r1".to_string(), "alice".to_string(), "pw".to_string());
    assert!(ok);
    let (ok, _) = st.join_room("r1".to_string(), "bob".to_string(), "pw".to_string());
    assert!(ok);
    let (ok, _) = st.send_message("r1".to_string(), "alice".to_string(), "hi".to_string());
    assert!(ok);
    let (ok, _) = st.send_message("r1".to_string(), "bob".to_string(), "hey".to_string());
    assert!(ok);
    st
}

#[test]
fn snapshot_round_trip_reproduces_state() {
    let st = populated_registry();
    let snap = st.snapshot();
    let restored = ChatState::restore(&snap).expect("a snapshot of a live registry restores");
    assert_eq!(restored.list_rooms(), st.list_rooms());
    assert_eq!(
        restored.get_room_users("r1".to_string()),
        vec!["alice".to_string(), "bob".to_string()]
    );
    assert_eq!(
        restored.get_room_messages("r1".to_string(), "alice".to_string()),
        vec![
            ("alice".to_string(), "hi".to_string(), 0u64),
            ("bob".to_string(), "hey".to_string(), 0u64),
        ]
    );
    assert_eq!(
        restored.get_username("0x1".to_string()),
        Some("alice".to_string())
    );
    assert_eq!(
        restored.get_wallet_address("bob".to_string()),
        Some("0x2".to_string())
    );
    let (name, room_type, creator) = restored.get_room_info("calls".to_string()).unwrap();
    assert_eq!(name, "calls");
    assert!(matches!(room_type, RoomType::Voice));
    assert_eq!(creator, "bob");
    // The restored registry keeps working: the stored password still gates
    // joining, and membership still gates reading.
    let mut restored = restored;
    let (ok, _) = restored.join_room("calls".to_string(), "carol".to_string(), "bad".to_string());
    assert!(!ok);
    assert!(restored
        .get_room_messages("r1".to_string(), "carol".to_string())
        .is_empty());
}

#[test]
fn snapshot_round_trip_on_empty_registry() {
    let st = ChatState::init();
    let snap = st.snapshot();
    assert!(snap.rooms.is_empty());
    assert!(snap.users.is_empty());
    let restored = ChatState::restore(&snap).unwrap();
    assert!(restored.list_rooms().is_empty());
}

fn plain_room(name: &str) -> RoomSnapshot {
    RoomSnapshot {
        name: name.to_string(),
        room_type: RoomType::Chat,
        password_hash: "pw".to_string(),
        messages: vec![MessageSnapshot {
            sender: "alice".to_string(),
            content: "hi".to_string(),
            timestamp: 0,
        }],
        users: vec!["alice".to_string()],
        creator: "alice".to_string(),
    }
}

#[test]
fn restore_rejects_duplicate_room_names() {
    let data = RegistrySnapshot {
        rooms: vec![plain_room("r1"), plain_room("r1")],
        users: vec![],
    };
    assert!(ChatState::restore(&data).is_none());
}

#[test]
fn restore_rejects_duplicate_user_identities() {
    let data = RegistrySnapshot {
        rooms: vec![],
        users: vec![
            UserSnapshot { username: "alice".to_string(), wallet_address: "0x1".to_string() },
            UserSnapshot { username: "alice".to_string(), wallet_address: "0x2".to_string() },
        ],
    };
    assert!(ChatState::restore(&data).is_none());
    let data = RegistrySnapshot {
        rooms: vec![],
        users: vec![
            UserSnapshot { username: "alice".to_string(), wallet_address: "0x1".to_string() },
            UserSnapshot { username: "bob".to_string(), wallet_address: "0x1".to_string() },
        ],
    };
    assert!(ChatState::restore(&data).is_none());
}

#[test]
fn restore_rejects_duplicate_membership() {
    let mut room = plain_room("r1");
    room.users = vec!["alice".to_string(), "alice".to_string()];
    let data = RegistrySnapshot { rooms: vec![room], users: vec![] };
    assert!(ChatState::restore(&data).is_none());
}

#[test]
fn restore_accepts_well_formed_data() {
    let data = RegistrySnapshot {
        rooms: vec![plain_room("r1"), plain_room("r2")],
        users: vec![UserSnapshot {
            username: "alice".to_string(),
            wallet_address: "0x1".to_string(),
        }],
    };
    let st = ChatState::restore(&data).expect("well-formed data restores");
    assert_eq!(st.get_room_users("r2".to_string()), vec!["alice".to_string()]);
    assert_eq!(
        st.get_room_messages("r1".to_string(), "alice".to_string()),
        vec![("alice".to_string(), "hi".to_string(), 0u64)]
    );
}
