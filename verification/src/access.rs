//! Public room access: joining a room, polling for admission, the LiveKit
//! grant, and the presenter's moderation requests.
use vstd::prelude::*;

use crate::auth::{bcrypt_verify, password_matches};
use crate::crypto::{is_lower_hex, random_hex};
use crate::error::{fails_with, AppError, ErrorKind};
use crate::ids::{is_uuid_text, new_uuid};
use crate::text::{lex_less, str_eq, str_less};

verus! {

/// The role a participant holds in a room.
#[derive(Clone, Copy, Debug, PartialEq, Eq, Structural)]
pub enum Role {
    Presenter,
    Viewer,
}

/// The name a role is stored and sent under.
pub open spec fn role_name(r: Role) -> Seq<char> {
    match r {
        Role::Presenter => "presenter"@,
        Role::Viewer => "viewer"@,
    }
}

impl Role {
    pub fn as_str(&self) -> (s: &'static str)
        ensures
            s@ == role_name(*self),
    {
        match self {
            Role::Presenter => "presenter",
            Role::Viewer => "viewer",
        }
    }

    /// A stored role name: `presenter` is the presenter, anything else a
    /// viewer.
    pub fn from_name(name: &str) -> (r: Role)
        ensures
            (r == Role::Presenter) == (name@ == "presenter"@),
    {
        if str_eq(name, "presenter") {
            Role::Presenter
        } else {
            Role::Viewer
        }
    }
}

// ---------------------------------------------------------------------------
// Joining
// ---------------------------------------------------------------------------

/// What joining reads of a room.
#[derive(Clone, Debug)]
pub struct JoinRoomRow {
    pub id: String,
    pub name: String,
    pub password_hash: Option<String>,
    pub delivery_mode: String,
    pub waiting_room: i32,
    pub status: String,
    pub expires_at: Option<String>,
    pub stream_key: Option<String>,
}

/// The fields of a join request. A role the client asks for is not among
/// them: joining never grants the presenter role, which only the admin's
/// "enter room" hands out.
#[derive(Clone, Debug)]
pub struct JoinRequest {
    pub name: Option<String>,
    pub password: Option<String>,
}

/// A granted join: the participant to insert and what the joiner is told.
#[derive(Clone, Debug)]
pub struct JoinGrant {
    pub room_id: String,
    pub participant_id: String,
    pub token: String,
    pub name: String,
    pub role: Role,
    pub admitted: bool,
    pub delivery_mode: String,
    pub waiting_room: bool,
    pub stream_key: Option<String>,
    pub room_name: String,
    pub status: String,
}

/// The room's password hash, when it has a non-empty one.
pub open spec fn room_hash(r: JoinRoomRow) -> Option<Seq<char>> {
    match r.password_hash {
        Some(h) => if h@.len() > 0 {
            Some(h@)
        } else {
            None
        },
        None => None,
    }
}

pub open spec fn text_or_empty(s: Option<String>) -> Seq<char> {
    match s {
        Some(t) => t@,
        None => Seq::<char>::empty(),
    }
}

/// The room has passed its expiry: stored datetimes compare as strings.
pub open spec fn expired_at(r: JoinRoomRow, now: Seq<char>) -> bool {
    r.expires_at matches Some(e) && lex_less(e@, now)
}

/// Why a join is refused, in the order the checks are made; `None` when it
/// is let through to the password check.
pub open spec fn join_gate(req: JoinRequest, room: Option<JoinRoomRow>, now: Seq<char>) -> Option<
    (ErrorKind, Seq<char>),
> {
    if req.name is None {
        Some((ErrorKind::BadRequest, "Name is required"@))
    } else if room is None {
        Some((ErrorKind::NotFound, "Room not found"@))
    } else if room->0.status@ == "ended"@ {
        Some((ErrorKind::Gone, "Room has ended"@))
    } else if expired_at(room->0, now) {
        Some((ErrorKind::Gone, "Room has expired"@))
    } else {
        None
    }
}

/// `POST /api/public/rooms/{slug}/join` at time `now` (stored form), given
/// the room (`None` when no room has the slug) and whether the name is
/// kicked from it: the checks of `join_gate`; then, for a password room, 401
/// `Password required` when none is supplied and 401 `Wrong password` when
/// it does not match; then 403 `You have been kicked from this room`;
/// otherwise a new viewer, admitted at once when the room has no waiting
/// room.
pub fn join_room(req: JoinRequest, room: Option<JoinRoomRow>, now: &str, kicked: bool) -> (res: Result<
    JoinGrant,
    AppError,
>)
    ensures
        join_gate(req, room, now@) matches Some((k, m)) ==> fails_with(res, k, m),
        join_gate(req, room, now@) is None ==> ({
            let r = room->0;
            &&& room_hash(r) is Some && text_or_empty(req.password).len() == 0 ==> fails_with(
                res,
                ErrorKind::Unauthorized,
                "Password required"@,
            )
            &&& room_hash(r) is Some && text_or_empty(req.password).len() > 0 && !password_matches(
                text_or_empty(req.password),
                room_hash(r)->0,
            ) ==> fails_with(res, ErrorKind::Unauthorized, "Wrong password"@)
            &&& (room_hash(r) is None || (text_or_empty(req.password).len() > 0 && password_matches(
                text_or_empty(req.password),
                room_hash(r)->0,
            ))) ==> if kicked {
                fails_with(res, ErrorKind::Forbidden, "You have been kicked from this room"@)
            } else {
                res matches Ok(g) && g.room_id@ == r.id@ && g.name@ == req.name->0@ && g.role
                    == Role::Viewer && g.admitted == (r.waiting_room == 0) && is_uuid_text(
                    g.participant_id@,
                ) && g.token@.len() == 48
                    && (forall|i: int| 0 <= i < 48 ==> is_lower_hex(#[trigger] g.token@[i]))
                    && g.delivery_mode@ == r.delivery_mode@ && g.waiting_room == (r.waiting_room
                    != 0) && g.room_name@ == r.name@ && g.status@ == r.status@ && (match (
                    g.stream_key,
                    r.stream_key,
                ) {
                    (Some(a), Some(b)) => a@ == b@,
                    (None, None) => true,
                    _ => false,
                })
            }
        }),
{
    let name = match req.name {
        Some(n) => n,
        None => return Err(AppError::new(ErrorKind::BadRequest, "Name is required")),
    };
    let r = match room {
        Some(r) => r,
        None => return Err(AppError::new(ErrorKind::NotFound, "Room not found")),
    };
    if str_eq(r.status.as_str(), "ended") {
        return Err(AppError::new(ErrorKind::Gone, "Room has ended"));
    }
    if let Some(exp) = &r.expires_at {
        if str_less(exp.as_str(), now) {
            return Err(AppError::new(ErrorKind::Gone, "Room has expired"));
        }
    }
    if let Some(hash) = &r.password_hash {
        if !hash.as_str().is_empty() {
            let provided = match &req.password {
                Some(p) => p.clone(),
                None => String::new(),
            };
            if provided.as_str().is_empty() {
                return Err(AppError::new(ErrorKind::Unauthorized, "Password required"));
            }
            let valid = match bcrypt_verify(provided.as_str(), hash.as_str()) {
                Ok(v) => v,
                Err(_) => return Err(AppError::new(ErrorKind::Unauthorized, "Wrong password")),
            };
            if !valid {
                return Err(AppError::new(ErrorKind::Unauthorized, "Wrong password"));
            }
        }
    }
    if kicked {
        return Err(AppError::new(ErrorKind::Forbidden, "You have been kicked from this room"));
    }
    let role = Role::Viewer;
    let admitted = r.waiting_room == 0;
    let participant_id = new_uuid();
    let token = random_hex(24);
    Ok(JoinGrant {
        room_id: r.id,
        participant_id,
        token,
        name,
        role,
        admitted,
        delivery_mode: r.delivery_mode,
        waiting_room: r.waiting_room != 0,
        stream_key: r.stream_key,
        room_name: r.name,
        status: r.status,
    })
}

// ---------------------------------------------------------------------------
// Participant credentials and admission
// ---------------------------------------------------------------------------

/// A request's participant token: 401 `Token required` without one.
pub fn require_token(token: Option<String>) -> (res: Result<String, AppError>)
    ensures
        token is None ==> fails_with(res, ErrorKind::Unauthorized, "Token required"@),
        token matches Some(t) ==> (res matches Ok(u) && u@ == t@),
{
    match token {
        Some(t) => Ok(t),
        None => Err(AppError::new(ErrorKind::Unauthorized, "Token required")),
    }
}

/// A participant's id and token, as a request presents them.
#[derive(Clone, Debug)]
pub struct Credentials {
    pub participant_id: String,
    pub token: String,
}

/// The credentials of a participant request: 400 `participantId required`
/// without an id, then 401 `Token required` without a token.
pub fn participant_credentials(participant_id: Option<String>, token: Option<String>) -> (res: Result<
    Credentials,
    AppError,
>)
    ensures
        participant_id is None ==> fails_with(
            res,
            ErrorKind::BadRequest,
            "participantId required"@,
        ),
        participant_id is Some && token is None ==> fails_with(
            res,
            ErrorKind::Unauthorized,
            "Token required"@,
        ),
        participant_id matches Some(p) ==> (token matches Some(t) ==> (res matches Ok(c)
            && c.participant_id@ == p@ && c.token@ == t@)),
{
    let participant_id = match participant_id {
        Some(p) => p,
        None => return Err(AppError::new(ErrorKind::BadRequest, "participantId required")),
    };
    let token = require_token(token)?;
    Ok(Credentials { participant_id, token })
}

/// A participant's admission, as stored (`is_admitted`, `is_kicked`), and
/// the status of their room.
#[derive(Clone, Debug)]
pub struct Admission {
    pub is_admitted: i32,
    pub is_kicked: i32,
    pub room_status: String,
}

/// The answer of the admission poll.
#[derive(Clone, Debug)]
pub struct ParticipantStatus {
    pub admitted: bool,
    pub kicked: bool,
    pub room_status: String,
}

/// The admission poll: 404 `Participant not found` when the id, token and
/// slug match no participant; otherwise whether they are admitted, whether
/// they are kicked, and their room's status.
pub fn admission_status(row: Option<Admission>) -> (res: Result<ParticipantStatus, AppError>)
    ensures
        row is None ==> fails_with(res, ErrorKind::NotFound, "Participant not found"@),
        row matches Some(a) ==> (res matches Ok(st) && st.admitted == (a.is_admitted == 1)
            && st.kicked == (a.is_kicked == 1) && st.room_status@ == a.room_status@),
{
    match row {
        Some(a) => Ok(
            ParticipantStatus {
                admitted: a.is_admitted == 1,
                kicked: a.is_kicked == 1,
                room_status: a.room_status,
            },
        ),
        None => Err(AppError::new(ErrorKind::NotFound, "Participant not found")),
    }
}

/// The events of the waiting-room stream.
#[derive(Clone, Copy, Debug, PartialEq, Eq, Structural)]
pub enum WaitingEvent {
    Kicked,
    RoomEnded,
    Admitted,
    Ping,
}

pub open spec fn waiting_event_name(e: WaitingEvent) -> Seq<char> {
    match e {
        WaitingEvent::Kicked => "kicked"@,
        WaitingEvent::RoomEnded => "room_ended"@,
        WaitingEvent::Admitted => "admitted"@,
        WaitingEvent::Ping => "ping"@,
    }
}

impl WaitingEvent {
    pub fn name(&self) -> (s: &'static str)
        ensures
            s@ == waiting_event_name(*self),
    {
        match self {
            WaitingEvent::Kicked => "kicked",
            WaitingEvent::RoomEnded => "room_ended",
            WaitingEvent::Admitted => "admitted",
            WaitingEvent::Ping => "ping",
        }
    }
}

/// What one tick of the waiting-room stream reports of a participant read
/// from the database (`None` when they could not be read), in this order:
/// `kicked` once they are kicked, `room_ended` once their room has ended,
/// `admitted` once they are admitted, `ping` otherwise.
pub open spec fn waiting_event_of(row: Option<Admission>) -> WaitingEvent {
    match row {
        Some(a) => if a.is_kicked == 1 {
            WaitingEvent::Kicked
        } else if a.room_status@ == "ended"@ {
            WaitingEvent::RoomEnded
        } else if a.is_admitted == 1 {
            WaitingEvent::Admitted
        } else {
            WaitingEvent::Ping
        },
        None => WaitingEvent::Ping,
    }
}

/// One tick of the waiting-room stream (see `waiting_event_of`).
pub fn waiting_event(row: &Option<Admission>) -> (res: WaitingEvent)
    ensures
        res == waiting_event_of(*row),
{
    match row {
        Some(a) => if a.is_kicked == 1 {
            WaitingEvent::Kicked
        } else if str_eq(a.room_status.as_str(), "ended") {
            WaitingEvent::RoomEnded
        } else if a.is_admitted == 1 {
            WaitingEvent::Admitted
        } else {
            WaitingEvent::Ping
        },
        None => WaitingEvent::Ping,
    }
}

/// What the LiveKit grant reads of the requesting participant.
#[derive(Clone, Debug)]
pub struct MemberRow {
    pub name: String,
    pub role: String,
    pub is_admitted: i32,
    pub is_kicked: i32,
    pub room_slug: String,
}

/// Whether a participant may have a LiveKit token: 404 `Participant not
/// found` without a match, 403 `You have been kicked` when kicked, 403
/// `Not yet admitted` while waiting; otherwise the participant.
pub fn livekit_admission(row: Option<MemberRow>) -> (res: Result<MemberRow, AppError>)
    ensures
        row is None ==> fails_with(res, ErrorKind::NotFound, "Participant not found"@),
        row matches Some(m) ==> (m.is_kicked == 1 ==> fails_with(
            res,
            ErrorKind::Forbidden,
            "You have been kicked"@,
        )),
        row matches Some(m) ==> (m.is_kicked != 1 && m.is_admitted == 0 ==> fails_with(
            res,
            ErrorKind::Forbidden,
            "Not yet admitted"@,
        )),
        row matches Some(m) ==> (m.is_kicked != 1 && m.is_admitted != 0 ==> res == Ok::<
            MemberRow,
            AppError,
        >(m)),
{
    let m = match row {
        Some(m) => m,
        None => return Err(AppError::new(ErrorKind::NotFound, "Participant not found")),
    };
    if m.is_kicked == 1 {
        return Err(AppError::new(ErrorKind::Forbidden, "You have been kicked"));
    }
    if m.is_admitted == 0 {
        return Err(AppError::new(ErrorKind::Forbidden, "Not yet admitted"));
    }
    Ok(m)
}

// ---------------------------------------------------------------------------
// Presenter moderation
// ---------------------------------------------------------------------------

/// The two moderation requests a presenter can make.
#[derive(Clone, Copy, Debug, PartialEq, Eq, Structural)]
pub enum Moderation {
    Kick,
    Mute,
}

/// A kick request.
#[derive(Clone, Debug)]
pub struct KickRequest {
    pub participant_id: Option<String>,
    pub token: Option<String>,
    pub target_id: Option<String>,
}

/// A validated kick: who asks, and whom.
#[derive(Clone, Debug)]
pub struct KickOrder {
    pub by: Credentials,
    pub target_id: String,
}

/// Validates a kick request: the credentials' checks, then 400 `targetId
/// required` without a target.
pub fn kick_order(req: KickRequest) -> (res: Result<KickOrder, AppError>)
    ensures
        req.participant_id is None ==> fails_with(
            res,
            ErrorKind::BadRequest,
            "participantId required"@,
        ),
        req.participant_id is Some && req.token is None ==> fails_with(
            res,
            ErrorKind::Unauthorized,
            "Token required"@,
        ),
        req.participant_id is Some && req.token is Some && req.target_id is None ==> fails_with(
            res,
            ErrorKind::BadRequest,
            "targetId required"@,
        ),
        req.participant_id is Some && req.token is Some && req.target_id is Some ==> (res matches Ok(
            o,
        ) && o.by.participant_id@ == req.participant_id->0@ && o.by.token@ == req.token->0@
            && o.target_id@ == req.target_id->0@),
{
    let by = participant_credentials(req.participant_id, req.token)?;
    let target_id = match req.target_id {
        Some(t) => t,
        None => return Err(AppError::new(ErrorKind::BadRequest, "targetId required")),
    };
    Ok(KickOrder { by, target_id })
}

/// A mute request.
#[derive(Clone, Debug)]
pub struct MuteRequest {
    pub participant_id: Option<String>,
    pub token: Option<String>,
    pub target_id: Option<String>,
    pub track_sid: Option<String>,
    pub muted: Option<bool>,
}

/// A validated mute: who asks, whose track, and whether to mute it.
#[derive(Clone, Debug)]
pub struct MuteOrder {
    pub by: Credentials,
    pub target_id: String,
    pub track_sid: String,
    pub muted: bool,
}

/// Validates a mute request: the credentials' checks, then 400 `targetId
/// required`, then 400 `trackSid required`; `muted` defaults to true.
pub fn mute_order(req: MuteRequest) -> (res: Result<MuteOrder, AppError>)
    ensures
        req.participant_id is None ==> fails_with(
            res,
            ErrorKind::BadRequest,
            "participantId required"@,
        ),
        req.participant_id is Some && req.token is None ==> fails_with(
            res,
            ErrorKind::Unauthorized,
            "Token required"@,
        ),
        req.participant_id is Some && req.token is Some && req.target_id is None ==> fails_with(
            res,
            ErrorKind::BadRequest,
            "targetId required"@,
        ),
        req.participant_id is Some && req.token is Some && req.target_id is Some
            && req.track_sid is None ==> fails_with(
            res,
            ErrorKind::BadRequest,
            "trackSid required"@,
        ),
        req.participant_id is Some && req.token is Some && req.target_id is Some
            && req.track_sid is Some ==> (res matches Ok(o) && o.by.participant_id@
            == req.participant_id->0@ && o.by.token@ == req.token->0@ && o.target_id@
            == req.target_id->0@ && o.track_sid@ == req.track_sid->0@ && o.muted == match req.muted {
            Some(m) => m,
            None => true,
        }),
{
    let by = participant_credentials(req.participant_id, req.token)?;
    let target_id = match req.target_id {
        Some(t) => t,
        None => return Err(AppError::new(ErrorKind::BadRequest, "targetId required")),
    };
    let track_sid = match req.track_sid {
        Some(t) => t,
        None => return Err(AppError::new(ErrorKind::BadRequest, "trackSid required")),
    };
    let muted = match req.muted {
        Some(m) => m,
        None => true,
    };
    Ok(MuteOrder { by, target_id, track_sid, muted })
}

/// Whether the requester may moderate: 404 `Participant not found` when
/// their credentials match no participant of the room (`role` is `None`);
/// 403 `Only presenters can kick` / `Only presenters can mute` unless they
/// are a presenter.
pub fn require_presenter(role: Option<String>, action: Moderation) -> (res: Result<(), AppError>)
    ensures
        role is None ==> fails_with(res, ErrorKind::NotFound, "Participant not found"@),
        role matches Some(r) ==> (r@ == "presenter"@ ==> res is Ok),
        role matches Some(r) ==> (r@ != "presenter"@ ==> fails_with(
            res,
            ErrorKind::Forbidden,
            match action {
                Moderation::Kick => "Only presenters can kick"@,
                Moderation::Mute => "Only presenters can mute"@,
            },
        )),
{
    let r = match role {
        Some(r) => r,
        None => return Err(AppError::new(ErrorKind::NotFound, "Participant not found")),
    };
    if str_eq(r.as_str(), "presenter") {
        Ok(())
    } else {
        match action {
            Moderation::Kick => Err(AppError::new(ErrorKind::Forbidden, "Only presenters can kick")),
            Moderation::Mute => Err(AppError::new(ErrorKind::Forbidden, "Only presenters can mute")),
        }
    }
}

} // verus!
