use stream_backend::access::{
    admission_status, join_room, kick_order, livekit_admission, mute_order,
    participant_credentials, require_presenter, require_token, waiting_event, Admission,
    JoinRequest, JoinRoomRow, KickRequest, MemberRow, Moderation, MuteRequest, Role, WaitingEvent,
};
use stream_backend::error::ErrorKind;

const NOW: &str = "2025-06-01 12:00:00";

fn row() -> JoinRoomRow {
    JoinRoomRow {
        id: "room-1".to_string(),
        name: "Room".to_string(),
        password_hash: None,
        delivery_mode: "webrtc".to_string(),
        waiting_room: 0,
        status: "live".to_string(),
        expires_at: None,
        stream_key: Some("key".to_string()),
    }
}

fn req(name: Option<&str>) -> JoinRequest {
    JoinRequest {
        name: name.map(|s| s.to_string()),
        password: None,
    }
}

fn err_of(r: Result<stream_backend::access::JoinGrant, stream_backend::error::AppError>) -> (u16, String) {
    let e = r.unwrap_err();
    (e.status(), e.message)
}

#[test]
fn join_needs_a_name_and_an_open_room() {
    assert_eq!(err_of(join_room(req(None), Some(row()), NOW, false)), (400, "Name is required".to_string()));
    assert_eq!(err_of(join_room(req(Some("A")), None, NOW, false)), (404, "Room not found".to_string()));
    let mut ended = row();
    ended.status = "ended".to_string();
    assert_eq!(err_of(join_room(req(Some("A")), Some(ended), NOW, false)), (410, "Room has ended".to_string()));
    let mut expired = row();
    expired.expires_at = Some("2025-06-01 11:59:59".to_string());
    assert_eq!(err_of(join_room(req(Some("A")), Some(expired), NOW, false)), (410, "Room has expired".to_string()));
    let mut later = row();
    later.expires_at = Some("2025-06-01 12:00:00".to_string());
    assert!(join_room(req(Some("A")), Some(later), NOW, false).is_ok());
}

#[test]
fn join_checks_password_then_kick() {
    let mut locked = row();
    locked.password_hash = Some(bcrypt::hash("pw", 4).unwrap());
    assert_eq!(
        err_of(join_room(req(Some("A")), Some(locked.clone()), NOW, false)),
        (401, "Password required".to_string())
    );
    let mut wrong = req(Some("A"));
    wrong.password = Some("nope".to_string());
    assert_eq!(err_of(join_room(wrong, Some(locked.clone()), NOW, false)), (401, "Wrong password".to_string()));
    let mut right = req(Some("A"));
    right.password = Some("pw".to_string());
    assert!(join_room(right.clone(), Some(locked.clone()), NOW, false).is_ok());
    assert_eq!(
        err_of(join_room(right, Some(locked), NOW, true)),
        (403, "You have been kicked from this room".to_string())
    );
}

#[test]
fn joining_never_grants_the_presenter_role() {
    let g = join_room(req(Some("Host")), Some(row()), NOW, false).unwrap();
    assert_eq!(g.role, Role::Viewer);
    assert_eq!(g.role.as_str(), "viewer");
}

#[test]
fn waiting_room_holds_new_participants() {
    let mut waiting = row();
    waiting.waiting_room = 1;
    let g = join_room(req(Some("V")), Some(waiting), NOW, false).unwrap();
    assert!(!g.admitted);
    assert!(g.waiting_room);
    let g = join_room(req(Some("V")), Some(row()), NOW, false).unwrap();
    assert!(g.admitted);
    assert!(!g.waiting_room);
    assert_eq!(g.name, "V");
    assert_eq!(g.room_id, "room-1");
    assert_eq!(g.room_name, "Room");
    assert_eq!(g.delivery_mode, "webrtc");
    assert_eq!(g.status, "live");
    assert_eq!(g.stream_key.as_deref(), Some("key"));
    assert_eq!(g.token.len(), 48);
    assert_eq!(g.participant_id.len(), 36);
}

#[test]
fn status_poll_and_waiting_events() {
    let e = require_token(None).unwrap_err();
    assert_eq!((e.status(), e.message.as_str()), (401, "Token required"));
    assert_eq!(require_token(Some("t".to_string())).unwrap(), "t");
    let e = admission_status(None).unwrap_err();
    assert_eq!((e.status(), e.message.as_str()), (404, "Participant not found"));
    let row = |a: i32, k: i32, st: &str| Admission {
        is_admitted: a,
        is_kicked: k,
        room_status: st.to_string(),
    };
    let st = admission_status(Some(row(1, 0, "live"))).unwrap();
    assert!(st.admitted && !st.kicked);
    assert_eq!(st.room_status, "live");
    let st = admission_status(Some(row(0, 1, "ended"))).unwrap();
    assert!(!st.admitted && st.kicked);
    assert_eq!(st.room_status, "ended");
    assert_eq!(waiting_event(&None), WaitingEvent::Ping);
    assert_eq!(waiting_event(&Some(row(0, 0, "pending"))), WaitingEvent::Ping);
    assert_eq!(waiting_event(&Some(row(1, 0, "live"))), WaitingEvent::Admitted);
    assert_eq!(waiting_event(&Some(row(1, 0, "ended"))), WaitingEvent::RoomEnded);
    assert_eq!(waiting_event(&Some(row(1, 1, "ended"))), WaitingEvent::Kicked);
    assert_eq!(waiting_event(&Some(row(0, 1, "live"))), WaitingEvent::Kicked);
    assert_eq!(WaitingEvent::Admitted.name(), "admitted");
    assert_eq!(WaitingEvent::Kicked.name(), "kicked");
    assert_eq!(WaitingEvent::RoomEnded.name(), "room_ended");
    assert_eq!(WaitingEvent::Ping.name(), "ping");
}

#[test]
fn livekit_grant_needs_an_admitted_unkicked_participant() {
    let e = participant_credentials(None, Some("t".to_string())).unwrap_err();
    assert_eq!((e.status(), e.message.as_str()), (400, "participantId required"));
    let e = participant_credentials(Some("p".to_string()), None).unwrap_err();
    assert_eq!((e.status(), e.message.as_str()), (401, "Token required"));
    let m = MemberRow {
        name: "N".to_string(),
        role: "viewer".to_string(),
        is_admitted: 1,
        is_kicked: 0,
        room_slug: "s".to_string(),
    };
    let e = livekit_admission(None).unwrap_err();
    assert_eq!((e.status(), e.message.as_str()), (404, "Participant not found"));
    let mut kicked = m.clone();
    kicked.is_kicked = 1;
    let e = livekit_admission(Some(kicked)).unwrap_err();
    assert_eq!((e.status(), e.message.as_str()), (403, "You have been kicked"));
    let mut waiting = m.clone();
    waiting.is_admitted = 0;
    let e = livekit_admission(Some(waiting)).unwrap_err();
    assert_eq!((e.status(), e.message.as_str()), (403, "Not yet admitted"));
    assert_eq!(livekit_admission(Some(m)).unwrap().name, "N");
}

#[test]
fn kick_and_mute_requests() {
    let e = kick_order(KickRequest {
        participant_id: Some("p".to_string()),
        token: Some("t".to_string()),
        target_id: None,
    })
    .unwrap_err();
    assert_eq!((e.status(), e.message.as_str()), (400, "targetId required"));
    let o = kick_order(KickRequest {
        participant_id: Some("p".to_string()),
        token: Some("t".to_string()),
        target_id: Some("x".to_string()),
    })
    .unwrap();
    assert_eq!((o.by.participant_id.as_str(), o.by.token.as_str(), o.target_id.as_str()), ("p", "t", "x"));

    let e = mute_order(MuteRequest {
        participant_id: Some("p".to_string()),
        token: Some("t".to_string()),
        target_id: Some("x".to_string()),
        track_sid: None,
        muted: None,
    })
    .unwrap_err();
    assert_eq!((e.status(), e.message.as_str()), (400, "trackSid required"));
    let o = mute_order(MuteRequest {
        participant_id: Some("p".to_string()),
        token: Some("t".to_string()),
        target_id: Some("x".to_string()),
        track_sid: Some("TR".to_string()),
        muted: None,
    })
    .unwrap();
    assert!(o.muted);
    assert_eq!(o.track_sid, "TR");
    let o = mute_order(MuteRequest {
        participant_id: Some("p".to_string()),
        token: Some("t".to_string()),
        target_id: Some("x".to_string()),
        track_sid: Some("TR".to_string()),
        muted: Some(false),
    })
    .unwrap();
    assert!(!o.muted);
}

#[test]
fn only_presenters_moderate() {
    let e = require_presenter(None, Moderation::Kick).unwrap_err();
    assert_eq!((e.status(), e.message.as_str()), (404, "Participant not found"));
    let e = require_presenter(Some("viewer".to_string()), Moderation::Kick).unwrap_err();
    assert_eq!((e.kind, e.message.as_str()), (ErrorKind::Forbidden, "Only presenters can kick"));
    let e = require_presenter(Some("viewer".to_string()), Moderation::Mute).unwrap_err();
    assert_eq!(e.message, "Only presenters can mute");
    assert!(require_presenter(Some("presenter".to_string()), Moderation::Mute).is_ok());
    assert_eq!(Role::from_name("presenter"), Role::Presenter);
    assert_eq!(Role::from_name("admin"), Role::Viewer);
}
