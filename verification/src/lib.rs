//! An in-memory registry for a real-time chat/voice application.
//!
//! The registry owns all user identities, rooms, room membership and message
//! history, and gatekeeps peer-signaling relay between room members. Every
//! mutating operation reports success as a boolean and, on success, hands the
//! caller the domain event describing what changed; the host environment is
//! responsible for delivering events to subscribers.

mod laws;
mod model;
mod registry;
mod snapshot;

pub use laws::{delete_room_authorization, join_room_idempotent, register_user_unique};
pub use model::{EventV, MessageV, RoomV, StateV, UserV};
pub use registry::{ChatState, Event, Message, Room, RoomType, UserProfile, event_view};
pub use snapshot::{
    snapshot_wf, MessageSnapshot, RegistrySnapshot, RoomSnapshot, UserSnapshot,
};
