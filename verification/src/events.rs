//! The events that handlers and background tasks publish to the room hub.
use vstd::prelude::*;

verus! {

/// A file became visible in a room's chat.
#[derive(Clone, Debug)]
pub struct FileSharedEvent {
    pub slug: String,
    pub id: String,
    pub participant_id: String,
    pub uploader_name: String,
    pub role: String,
    pub name: String,
    pub size: u64,
    pub mime: String,
    pub ts: u64,
}

/// A file was removed from a room.
#[derive(Clone, Debug)]
pub struct FileUnsharedEvent {
    pub slug: String,
    pub id: String,
}

/// A participant was kicked from a room.
#[derive(Clone, Debug)]
pub struct KickedEvent {
    pub slug: String,
    pub participant_id: String,
}

/// An admin attached a stream key to a room. Carries the new key token so
/// connected clients can swap it into their session and reload the player
/// without rejoining (which would cost a presenter handed off by
/// pre-session its role).
#[derive(Clone, Debug)]
pub struct StreamKeyAssignedEvent {
    pub slug: String,
    pub stream_key: String,
}

} // verus!
