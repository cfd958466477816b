//! The room channel's protocol decisions: admitting a socket after its auth
//! message, what each client message leads to, the host-pinned focus, and
//! how room events reach the connected participants.
use vstd::prelude::*;

use crate::events::{FileSharedEvent, FileUnsharedEvent, KickedEvent, StreamKeyAssignedEvent};
use crate::error::owned;
use crate::ids::{is_uuid_text, new_uuid};
use crate::time::unix_now_millis;
use crate::text::{chars_of, is_ws, str_eq, string_of_range, trim, trim_chars};

verus! {

// ---------------------------------------------------------------------------
// Authentication of a socket
// ---------------------------------------------------------------------------

/// WebSocket close code for a policy violation.
pub const CLOSE_POLICY: u16 = 1008;

/// WebSocket close code for an endpoint going away.
pub const CLOSE_GOING_AWAY: u16 = 1001;

/// What the stored participant row says of a socket's credentials.
#[derive(Clone, Debug)]
pub struct AuthRow {
    pub id: String,
    pub name: String,
    pub role: String,
    pub is_admitted: bool,
    pub is_kicked: bool,
}

/// A message the server sends on the room channel before closing it.
#[derive(Clone, Debug)]
pub enum Farewell {
    /// `{"type":"error","message":...}`
    Error(String),
    /// `{"type":"kicked"}`
    Kicked,
}

/// How the server answers a socket's first message.
#[derive(Clone, Debug)]
pub enum AuthOutcome {
    /// Optionally say something, then close with the code and reason.
    Reject { farewell: Option<Farewell>, code: u16, reason: String },
    /// Register the participant and carry on.
    Accept(AuthRow),
}

pub open spec fn rejects(o: AuthOutcome, farewell: Option<Seq<char>>, kicked: bool, reason: Seq<char>) -> bool {
    o matches AuthOutcome::Reject { farewell: f, code, reason: r } && code == CLOSE_POLICY && r@
        == reason && match f {
        None => farewell is None && !kicked,
        Some(Farewell::Kicked) => farewell is None && kicked,
        Some(Farewell::Error(m)) => farewell == Some(m@) && !kicked,
    }
}

/// The answer to a socket's first message, given its type (`None` when no
/// parsable auth message arrived in time) and the participant row its
/// credentials match (`None` when they match none): close `Auth required`
/// without a message; `First message must be auth` for another type;
/// `Invalid credentials` then `Auth failed` for unknown credentials; a
/// kicked notice then `Kicked`; `Not admitted` twice for a waiting
/// participant; otherwise accept. Every close uses code 1008.
pub fn auth_outcome(msg_type: Option<String>, row: Option<AuthRow>) -> (res: AuthOutcome)
    ensures
        msg_type is None ==> rejects(res, None, false, "Auth required"@),
        msg_type matches Some(t) ==> (t@ != "auth"@ ==> rejects(
            res,
            None,
            false,
            "First message must be auth"@,
        )),
        msg_type matches Some(t) ==> (t@ == "auth"@ ==> match row {
            None => rejects(res, Some("Invalid credentials"@), false, "Auth failed"@),
            Some(r) => if r.is_kicked {
                rejects(res, None, true, "Kicked"@)
            } else if !r.is_admitted {
                rejects(res, Some("Not admitted"@), false, "Not admitted"@)
            } else {
                res matches AuthOutcome::Accept(a) && a.id@ == r.id@ && a.name@ == r.name@
                    && a.role@ == r.role@
            },
        }),
{
    let t = match msg_type {
        Some(t) => t,
        None => return AuthOutcome::Reject {
            farewell: None,
            code: CLOSE_POLICY,
            reason: owned("Auth required"),
        },
    };
    if !str_eq(t.as_str(), "auth") {
        return AuthOutcome::Reject {
            farewell: None,
            code: CLOSE_POLICY,
            reason: owned("First message must be auth"),
        };
    }
    let r = match row {
        Some(r) => r,
        None => return AuthOutcome::Reject {
            farewell: Some(Farewell::Error(owned("Invalid credentials"))),
            code: CLOSE_POLICY,
            reason: owned("Auth failed"),
        },
    };
    if r.is_kicked {
        return AuthOutcome::Reject {
            farewell: Some(Farewell::Kicked),
            code: CLOSE_POLICY,
            reason: owned("Kicked"),
        };
    }
    if !r.is_admitted {
        return AuthOutcome::Reject {
            farewell: Some(Farewell::Error(owned("Not admitted"))),
            code: CLOSE_POLICY,
            reason: owned("Not admitted"),
        };
    }
    AuthOutcome::Accept(r)
}

// ---------------------------------------------------------------------------
// Chat
// ---------------------------------------------------------------------------

/// The longest chat message, in characters.
pub const CHAT_MAX_CHARS: usize = 500;

/// The text a chat message is kept with: its first 500 characters, or
/// nothing when those are blank.
pub open spec fn chat_kept(text: Seq<char>) -> Option<Seq<char>> {
    let t = if text.len() > CHAT_MAX_CHARS {
        text.take(CHAT_MAX_CHARS as int)
    } else {
        text
    };
    if trim(t).len() == 0 {
        None
    } else {
        Some(t)
    }
}

/// A kept chat message is never blank, holds at most 500 characters, and
/// is the start of what was sent.
pub proof fn lemma_chat_kept_shape(text: Seq<char>)
    ensures
        chat_kept(text) matches Some(t) ==> {
            &&& t.len() <= CHAT_MAX_CHARS
            &&& trim(t).len() > 0
            &&& t == text.take(t.len() as int)
        },
{
    if text.len() <= CHAT_MAX_CHARS {
        assert(text.take(text.len() as int) =~= text);
    }
}

/// The text to store and broadcast for a chat message (see `chat_kept`).
pub fn chat_text(text: &str) -> (res: Option<String>)
    ensures
        match res {
            Some(t) => chat_kept(text@) == Some(t@),
            None => chat_kept(text@) is None,
        },
{
    let cs = chars_of(text);
    let end = if cs.len() > CHAT_MAX_CHARS {
        CHAT_MAX_CHARS
    } else {
        cs.len()
    };
    let kept = string_of_range(&cs, 0, end);
    assert(kept@ =~= if text@.len() > CHAT_MAX_CHARS {
        text@.take(CHAT_MAX_CHARS as int)
    } else {
        text@
    });
    let kc = chars_of(kept.as_str());
    let tr = trim_chars(&kc);
    if tr.len() == 0 {
        None
    } else {
        Some(kept)
    }
}

/// The kinds of message a participant sends on the room channel.
#[derive(Clone, Copy, Debug, PartialEq, Eq, Structural)]
pub enum ClientMessage {
    Chat,
    PointerMove,
    PointerHide,
    FileShare,
    FocusSet,
    /// Any other type, which is ignored.
    Unknown,
}

/// The kind of message a `type` field names.
pub open spec fn client_message_of(t: Seq<char>) -> ClientMessage {
    if t == "chat:message"@ {
        ClientMessage::Chat
    } else if t == "pointer:move"@ {
        ClientMessage::PointerMove
    } else if t == "pointer:hide"@ {
        ClientMessage::PointerHide
    } else if t == "file:share"@ {
        ClientMessage::FileShare
    } else if t == "focus:set"@ {
        ClientMessage::FocusSet
    } else {
        ClientMessage::Unknown
    }
}

/// Which handler a message of type `t` goes to (see `client_message_of`).
pub fn classify_message(t: &str) -> (res: ClientMessage)
    ensures
        res == client_message_of(t@),
{
    if str_eq(t, "chat:message") {
        ClientMessage::Chat
    } else if str_eq(t, "pointer:move") {
        ClientMessage::PointerMove
    } else if str_eq(t, "pointer:hide") {
        ClientMessage::PointerHide
    } else if str_eq(t, "file:share") {
        ClientMessage::FileShare
    } else if str_eq(t, "focus:set") {
        ClientMessage::FocusSet
    } else {
        ClientMessage::Unknown
    }
}

/// A chat message as it is stored and broadcast: a fresh id, the kept text
/// and the time it was sent, in milliseconds since the Unix epoch.
#[derive(Clone, Debug)]
pub struct ChatMessage {
    pub id: String,
    pub text: String,
    pub ts: u64,
}

/// The message a participant's `chat:message` becomes: `None` when nothing
/// is left of its text (see `chat_kept`), otherwise the kept text under a
/// fresh UUID, stamped with the clock.
pub fn new_chat_message(text: &str) -> (res: Option<ChatMessage>)
    ensures
        match res {
            Some(m) => chat_kept(text@) == Some(m.text@) && is_uuid_text(m.id@),
            None => chat_kept(text@) is None,
        },
{
    match chat_text(text) {
        Some(kept) => Some(ChatMessage { id: new_uuid(), text: kept, ts: unix_now_millis() }),
        None => None,
    }
}

// ---------------------------------------------------------------------------
// Sharing a draft file into the chat
// ---------------------------------------------------------------------------

/// The file id of a `file:share` message, when it is a non-empty string.
pub fn share_file_id(file_id: Option<String>) -> (res: Option<String>)
    ensures
        match file_id {
            Some(f) => if f@.len() > 0 {
                res matches Some(g) && g@ == f@
            } else {
                res is None
            },
            None => res is None,
        },
{
    match file_id {
        Some(f) => if f.as_str().is_empty() {
            None
        } else {
            Some(f)
        },
        None => None,
    }
}

/// A draft file of the sharer, in the sharer's room.
#[derive(Clone, Debug)]
pub struct DraftRow {
    pub room_id: String,
    pub original_name: String,
    pub mime_type: String,
    pub size_bytes: i64,
    pub is_shared: i64,
}

/// The announcement a `file:share` leads to, given the draft (`None` when
/// the sharer has no such draft in the room): none for a missing or an
/// already shared file; otherwise the file, sent by the sharer, at `ts`.
pub fn share_announcement(
    slug: &str,
    participant_id: &str,
    name: &str,
    role: &str,
    file_id: String,
    draft: Option<DraftRow>,
    ts: u64,
) -> (res: Option<FileSharedEvent>)
    ensures
        draft is None ==> res is None,
        draft matches Some(d) ==> (d.is_shared != 0 ==> res is None),
        draft matches Some(d) ==> (d.is_shared == 0 ==> (res matches Some(e) && e.slug@ == slug@
            && e.id@ == file_id@ && e.participant_id@ == participant_id@ && e.uploader_name@
            == name@ && e.role@ == role@ && e.name@ == d.original_name@ && e.size
            == d.size_bytes as u64 && e.mime@ == d.mime_type@ && e.ts == ts)),
{
    let d = match draft {
        Some(d) => d,
        None => return None,
    };
    if d.is_shared != 0 {
        return None;
    }
    Some(
        FileSharedEvent {
            slug: owned(slug),
            id: file_id,
            participant_id: owned(participant_id),
            uploader_name: owned(name),
            role: owned(role),
            name: d.original_name,
            size: d.size_bytes as u64,
            mime: d.mime_type,
            ts,
        },
    )
}

// ---------------------------------------------------------------------------
// Host-pinned focus
// ---------------------------------------------------------------------------

/// The tiles a host can pin for everyone.
#[derive(Clone, Copy, Debug, PartialEq, Eq, Structural)]
pub enum Tile {
    Stream,
    Share,
}

pub open spec fn tile_name(t: Tile) -> Seq<char> {
    match t {
        Tile::Stream => "stream"@,
        Tile::Share => "share"@,
    }
}

impl Tile {
    pub fn as_str(&self) -> (s: &'static str)
        ensures
            s@ == tile_name(*self),
    {
        match self {
            Tile::Stream => "stream",
            Tile::Share => "share",
        }
    }
}

/// The `tileId` of a `focus:set` message.
#[derive(Clone, Debug)]
pub enum TileField {
    Absent,
    Null,
    Text(String),
    /// A number, boolean, array or object.
    Other,
}

/// What a `focus:set` message does.
#[derive(Clone, Copy, Debug, PartialEq, Eq, Structural)]
pub enum FocusChange {
    /// Nothing at all.
    Ignore,
    /// Pin the tile for everyone (`None` unpins), and tell the room.
    Pin(Option<Tile>),
}

/// A `focus:set` from a participant with role `role`: only presenters pin;
/// `stream` and `share` pin that tile, a null or missing id unpins, any
/// other id is ignored.
pub fn focus_change(role: &str, tile: &TileField) -> (res: FocusChange)
    ensures
        role@ != "presenter"@ ==> res == FocusChange::Ignore,
        role@ == "presenter"@ ==> res == match tile {
            TileField::Absent | TileField::Null => FocusChange::Pin(None),
            TileField::Text(t) => if t@ == "stream"@ {
                FocusChange::Pin(Some(Tile::Stream))
            } else if t@ == "share"@ {
                FocusChange::Pin(Some(Tile::Share))
            } else {
                FocusChange::Ignore
            },
            TileField::Other => FocusChange::Ignore,
        },
{
    if !str_eq(role, "presenter") {
        return FocusChange::Ignore;
    }
    match tile {
        TileField::Absent | TileField::Null => FocusChange::Pin(None),
        TileField::Text(t) => if str_eq(t.as_str(), "stream") {
            FocusChange::Pin(Some(Tile::Stream))
        } else if str_eq(t.as_str(), "share") {
            FocusChange::Pin(Some(Tile::Share))
        } else {
            FocusChange::Ignore
        },
        TileField::Other => FocusChange::Ignore,
    }
}

/// No slug is pinned twice.
pub open spec fn pins_unique(ps: Seq<(String, Tile)>) -> bool {
    forall|a: int, b: int|
        0 <= a < ps.len() && 0 <= b < ps.len() && a != b ==> #[trigger] ps[a].0@ != #[trigger] ps[b].0@
}

/// The pin of `slug` in `ps`.
pub open spec fn pin_in(ps: Seq<(String, Tile)>, slug: Seq<char>) -> Option<Tile> {
    if exists|i: int| 0 <= i < ps.len() && #[trigger] ps[i].0@ == slug {
        Some(ps[choose|i: int| 0 <= i < ps.len() && #[trigger] ps[i].0@ == slug].1)
    } else {
        None
    }
}

proof fn lemma_pin_at(ps: Seq<(String, Tile)>, slug: Seq<char>, i: int)
    requires
        pins_unique(ps),
        0 <= i < ps.len(),
        ps[i].0@ == slug,
    ensures
        pin_in(ps, slug) == Some(ps[i].1),
{
    let c = choose|j: int| 0 <= j < ps.len() && #[trigger] ps[j].0@ == slug;
    assert(ps[c].0@ == slug);
}

/// The tile each room's host has pinned, kept in memory: late joiners get
/// the current pin; a restart forgets them all.
pub struct FocusBoard {
    pins: Vec<(String, Tile)>,
}

impl FocusBoard {
    #[verifier::type_invariant]
    spec fn inv(&self) -> bool {
        pins_unique(self.pins@)
    }

    /// The tile pinned in room `slug`, if any.
    pub closed spec fn pin(&self, slug: Seq<char>) -> Option<Tile> {
        pin_in(self.pins@, slug)
    }

    pub fn new() -> (b: Self)
        ensures
            forall|s: Seq<char>| #[trigger] b.pin(s) is None,
    {
        FocusBoard { pins: Vec::new() }
    }

    fn find(pins: &Vec<(String, Tile)>, slug: &str) -> (res: Option<usize>)
        requires
            pins_unique(pins@),
        ensures
            match res {
                Some(i) => i < pins@.len() && pins@[i as int].0@ == slug@,
                None => forall|j: int| 0 <= j < pins@.len() ==> #[trigger] pins@[j].0@ != slug@,
            },
    {
        let mut i: usize = 0;
        while i < pins.len()
            invariant
                i <= pins@.len(),
                forall|j: int| 0 <= j < i ==> #[trigger] pins@[j].0@ != slug@,
            decreases pins@.len() - i,
        {
            if str_eq(pins[i].0.as_str(), slug) {
                return Some(i);
            }
            i += 1;
        }
        None
    }

    /// The tile pinned in room `slug`.
    pub fn get(&self, slug: &str) -> (res: Option<Tile>)
        ensures
            res == self.pin(slug@),
    {
        proof {
            use_type_invariant(self);
        }
        match FocusBoard::find(&self.pins, slug) {
            Some(i) => {
                proof {
                    lemma_pin_at(self.pins@, slug@, i as int);
                }
                Some(self.pins[i].1)
            },
            None => None,
        }
    }

    /// Pins `tile` in room `slug` (`None` unpins); other rooms keep theirs.
    pub fn set(&mut self, slug: &str, tile: Option<Tile>)
        ensures
            final(self).pin(slug@) == tile,
            forall|s: Seq<char>| s != slug@ ==> #[trigger] final(self).pin(s) == old(self).pin(s),
    {
        proof {
            use_type_invariant(&*self);
        }
        let mut pins: Vec<(String, Tile)> = Vec::new();
        std::mem::swap(&mut pins, &mut self.pins);
        let ghost ps = pins@;
        match FocusBoard::find(&pins, slug) {
            Some(i) => {
                pins.remove(i);
                proof {
                    lemma_remove_pin(ps, i as int);
                }
            },
            None => {},
        }
        let ghost qs = pins@;
        match tile {
            Some(t) => {
                let entry = (owned(slug), t);
                pins.push(entry);
                proof {
                    lemma_push_pin(qs, entry);
                }
            },
            None => {
                proof {
                    lemma_pin_absent(qs, slug@);
                }
            },
        }
        self.pins = pins;
    }
}

proof fn lemma_pin_absent(ps: Seq<(String, Tile)>, slug: Seq<char>)
    requires
        forall|j: int| 0 <= j < ps.len() ==> #[trigger] ps[j].0@ != slug,
    ensures
        pin_in(ps, slug) is None,
{
}

proof fn lemma_remove_pin(ps: Seq<(String, Tile)>, i: int)
    requires
        pins_unique(ps),
        0 <= i < ps.len(),
    ensures
        pins_unique(ps.remove(i)),
        forall|j: int| 0 <= j < ps.remove(i).len() ==> #[trigger] ps.remove(i)[j].0@ != ps[i].0@,
        forall|s: Seq<char>| s != ps[i].0@ ==> #[trigger] pin_in(ps.remove(i), s) == pin_in(ps, s),
{
    let qs = ps.remove(i);
    assert forall|a: int, b: int|
        0 <= a < qs.len() && 0 <= b < qs.len() && a != b implies #[trigger] qs[a].0@
        != #[trigger] qs[b].0@ by {
        let a0 = if a < i { a } else { a + 1 };
        let b0 = if b < i { b } else { b + 1 };
        assert(qs[a] == ps[a0]);
        assert(qs[b] == ps[b0]);
    }
    assert forall|j: int| 0 <= j < qs.len() implies #[trigger] qs[j].0@ != ps[i].0@ by {
        let j0 = if j < i { j } else { j + 1 };
        assert(qs[j] == ps[j0]);
    }
    assert forall|s: Seq<char>| s != ps[i].0@ implies #[trigger] pin_in(qs, s) == pin_in(ps, s) by {
        if exists|j: int| 0 <= j < ps.len() && #[trigger] ps[j].0@ == s {
            let j = choose|j: int| 0 <= j < ps.len() && #[trigger] ps[j].0@ == s;
            lemma_pin_at(ps, s, j);
            let j2 = if j < i { j } else { j - 1 };
            assert(qs[j2] == ps[j]);
            lemma_pin_at(qs, s, j2);
        } else {
            assert forall|j: int| 0 <= j < qs.len() implies #[trigger] qs[j].0@ != s by {
                let j0 = if j < i { j } else { j + 1 };
                assert(qs[j] == ps[j0]);
            }
        }
    }
}

proof fn lemma_push_pin(qs: Seq<(String, Tile)>, e: (String, Tile))
    requires
        pins_unique(qs),
        forall|j: int| 0 <= j < qs.len() ==> #[trigger] qs[j].0@ != e.0@,
    ensures
        pins_unique(qs.push(e)),
        pin_in(qs.push(e), e.0@) == Some(e.1),
        forall|s: Seq<char>| s != e.0@ ==> #[trigger] pin_in(qs.push(e), s) == pin_in(qs, s),
{
    let rs = qs.push(e);
    assert forall|a: int, b: int|
        0 <= a < rs.len() && 0 <= b < rs.len() && a != b implies #[trigger] rs[a].0@
        != #[trigger] rs[b].0@ by {
        if a < qs.len() && b < qs.len() {
            assert(qs[a].0@ != qs[b].0@);
        } else if a < qs.len() {
            assert(qs[a].0@ != e.0@);
        } else if b < qs.len() {
            assert(qs[b].0@ != e.0@);
        }
    }
    lemma_pin_at(rs, e.0@, qs.len() as int);
    assert forall|s: Seq<char>| s != e.0@ implies #[trigger] pin_in(rs, s) == pin_in(qs, s) by {
        if exists|j: int| 0 <= j < qs.len() && #[trigger] qs[j].0@ == s {
            let j = choose|j: int| 0 <= j < qs.len() && #[trigger] qs[j].0@ == s;
            lemma_pin_at(qs, s, j);
            assert(rs[j] == qs[j]);
            lemma_pin_at(rs, s, j);
        } else {
            assert forall|j: int| 0 <= j < rs.len() implies #[trigger] rs[j].0@ != s by {
                if j < qs.len() {
                    assert(rs[j] == qs[j]);
                }
            }
        }
    }
}

// ---------------------------------------------------------------------------
// Room events
// ---------------------------------------------------------------------------

/// The events other parts of the server publish to the room channels.
#[derive(Clone, Debug)]
pub enum RoomEvent {
    Live(String),
    Pending(String),
    Ended(String),
    StreamAssigned(StreamKeyAssignedEvent),
    StreamRemoved(String),
    FileShared(FileSharedEvent),
    FileRemoved(FileUnsharedEvent),
    Kicked(KickedEvent),
    HostRevoked(KickedEvent),
}

/// A message to every member of a room.
#[derive(Clone, Debug)]
pub enum Notice {
    /// `{"type":"room:live"}`
    RoomLive,
    /// `{"type":"room:pending"}`
    RoomPending,
    /// `{"type":"room:ended"}`
    RoomEnded,
    /// `{"type":"stream:assigned","streamKey":...}`
    StreamAssigned(String),
    /// `{"type":"stream:removed"}`
    StreamRemoved,
    /// `{"type":"file:shared",...}`
    FileShared(FileSharedEvent),
    /// `{"type":"file:removed","id":...}`
    FileRemoved(String),
    /// `{"type":"kicked"}`
    Kicked,
    /// `{"type":"host:revoked"}`
    HostRevoked,
}

/// What the hub does about an event.
#[derive(Clone, Debug)]
pub enum HubAction {
    /// Tell every member of the room.
    Broadcast { slug: String, notice: Notice },
    /// Tell every member the room ended, close their sockets (1001 `Room
    /// ended`) and forget the room.
    CloseRoom { slug: String },
    /// Tell one member, close their socket (1008 `Kicked`), drop them, and
    /// send the room its new roster.
    Eject { slug: String, participant_id: String, notice: Notice },
}

/// The hub's action for each event: status and stream changes, shared and
/// removed files are broadcast; an ended room is closed; a kicked or
/// revoked host is ejected with the matching notice.
pub fn hub_action(event: RoomEvent) -> (res: HubAction)
    ensures
        event matches RoomEvent::Live(s) ==> res matches HubAction::Broadcast { slug, notice }
            && slug@ == s@ && notice is RoomLive,
        event matches RoomEvent::Pending(s) ==> res matches HubAction::Broadcast { slug, notice }
            && slug@ == s@ && notice is RoomPending,
        event matches RoomEvent::Ended(s) ==> res matches HubAction::CloseRoom { slug } && slug@
            == s@,
        event matches RoomEvent::StreamAssigned(e) ==> res matches HubAction::Broadcast {
            slug,
            notice,
        } && slug@ == e.slug@ && (notice matches Notice::StreamAssigned(k) && k@ == e.stream_key@),
        event matches RoomEvent::StreamRemoved(s) ==> res matches HubAction::Broadcast {
            slug,
            notice,
        } && slug@ == s@ && notice is StreamRemoved,
        event matches RoomEvent::FileShared(e) ==> res matches HubAction::Broadcast { slug, notice }
            && slug@ == e.slug@ && notice == Notice::FileShared(e),
        event matches RoomEvent::FileRemoved(e) ==> res matches HubAction::Broadcast {
            slug,
            notice,
        } && slug@ == e.slug@ && (notice matches Notice::FileRemoved(i) && i@ == e.id@),
        event matches RoomEvent::Kicked(e) ==> res matches HubAction::Eject {
            slug,
            participant_id,
            notice,
        } && slug@ == e.slug@ && participant_id@ == e.participant_id@ && notice is Kicked,
        event matches RoomEvent::HostRevoked(e) ==> res matches HubAction::Eject {
            slug,
            participant_id,
            notice,
        } && slug@ == e.slug@ && participant_id@ == e.participant_id@ && notice is HostRevoked,
{
    match event {
        RoomEvent::Live(s) => HubAction::Broadcast { slug: s, notice: Notice::RoomLive },
        RoomEvent::Pending(s) => HubAction::Broadcast { slug: s, notice: Notice::RoomPending },
        RoomEvent::Ended(s) => HubAction::CloseRoom { slug: s },
        RoomEvent::StreamAssigned(e) => HubAction::Broadcast {
            slug: e.slug,
            notice: Notice::StreamAssigned(e.stream_key),
        },
        RoomEvent::StreamRemoved(s) => HubAction::Broadcast { slug: s, notice: Notice::StreamRemoved },
        RoomEvent::FileShared(e) => {
            let slug = e.slug.clone();
            HubAction::Broadcast { slug, notice: Notice::FileShared(e) }
        },
        RoomEvent::FileRemoved(e) => HubAction::Broadcast {
            slug: e.slug,
            notice: Notice::FileRemoved(e.id),
        },
        RoomEvent::Kicked(e) => HubAction::Eject {
            slug: e.slug,
            participant_id: e.participant_id,
            notice: Notice::Kicked,
        },
        RoomEvent::HostRevoked(e) => HubAction::Eject {
            slug: e.slug,
            participant_id: e.participant_id,
            notice: Notice::HostRevoked,
        },
    }
}

// ---------------------------------------------------------------------------
// Chat history
// ---------------------------------------------------------------------------

/// The most chat history entries a new connection is sent.
pub const HISTORY_LIMIT: usize = 50;

/// Chat history entries read newest first, put oldest first for sending.
pub fn oldest_first<E>(newest_first: Vec<E>) -> (res: Vec<E>)
    ensures
        res@ == newest_first@.reverse(),
{
    let mut rest = newest_first;
    let mut res: Vec<E> = Vec::new();
    let ghost all = rest@;
    while rest.len() > 0
        invariant
            rest@.len() <= all.len(),
            rest@ == all.take(rest@.len() as int),
            res@ == all.skip(rest@.len() as int).reverse(),
        decreases rest@.len(),
    {
        let e = rest.pop().unwrap();
        let ghost n = rest@.len();
        assert(all.skip(n as int).reverse() =~= all.skip(n as int + 1).reverse().push(all[n as int]) ) by {
            assert(all.skip(n as int) =~= seq![all[n as int]] + all.skip(n as int + 1));
        }
        res.push(e);
    }
    assert(all.skip(0) =~= all);
    res
}

} // verus!
