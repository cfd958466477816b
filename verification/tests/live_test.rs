use stream_backend::events::{FileSharedEvent, FileUnsharedEvent, KickedEvent, StreamKeyAssignedEvent};
use stream_backend::live::{
    auth_outcome, chat_text, classify_message, focus_change, hub_action, new_chat_message, oldest_first, share_announcement,
    share_file_id, AuthOutcome, AuthRow, DraftRow, Farewell, FocusBoard, FocusChange, HubAction,
    ClientMessage, Notice, RoomEvent, Tile, TileField,
};

fn row(admitted: bool, kicked: bool) -> AuthRow {
    AuthRow {
        id: "p1".to_string(),
        name: "Ann".to_string(),
        role: "viewer".to_string(),
        is_admitted: admitted,
        is_kicked: kicked,
    }
}

fn reject(o: AuthOutcome) -> (Option<Farewell>, u16, String) {
    match o {
        AuthOutcome::Reject { farewell, code, reason } => (farewell, code, reason),
        AuthOutcome::Accept(_) => panic!("expected a rejection"),
    }
}

#[test]
fn socket_authentication_outcomes() {
    let (f, code, reason) = reject(auth_outcome(None, None));
    assert!(f.is_none());
    assert_eq!((code, reason.as_str()), (1008, "Auth required"));

    let (_, code, reason) = reject(auth_outcome(Some("chat:message".to_string()), Some(row(true, false))));
    assert_eq!((code, reason.as_str()), (1008, "First message must be auth"));

    let (f, _, reason) = reject(auth_outcome(Some("auth".to_string()), None));
    assert!(matches!(f, Some(Farewell::Error(m)) if m == "Invalid credentials"));
    assert_eq!(reason, "Auth failed");

    let (f, _, reason) = reject(auth_outcome(Some("auth".to_string()), Some(row(true, true))));
    assert!(matches!(f, Some(Farewell::Kicked)));
    assert_eq!(reason, "Kicked");

    let (f, _, reason) = reject(auth_outcome(Some("auth".to_string()), Some(row(false, false))));
    assert!(matches!(f, Some(Farewell::Error(m)) if m == "Not admitted"));
    assert_eq!(reason, "Not admitted");

    match auth_outcome(Some("auth".to_string()), Some(row(true, false))) {
        AuthOutcome::Accept(r) => assert_eq!((r.id.as_str(), r.name.as_str()), ("p1", "Ann")),
        _ => panic!("expected acceptance"),
    }
}

#[test]
fn chat_text_is_capped_and_never_blank() {
    assert_eq!(chat_text("hello"), Some("hello".to_string()));
    assert_eq!(chat_text("  hi  "), Some("  hi  ".to_string()));
    assert_eq!(chat_text(""), None);
    assert_eq!(chat_text(" \n\t "), None);
    let long = "ü".repeat(600);
    assert_eq!(chat_text(&long), Some("ü".repeat(500)));
    let padded = format!("{}x", " ".repeat(500));
    assert_eq!(chat_text(&padded), None);
}

#[test]
fn sharing_a_draft() {
    assert_eq!(share_file_id(None), None);
    assert_eq!(share_file_id(Some(String::new())), None);
    assert_eq!(share_file_id(Some("f1".to_string())), Some("f1".to_string()));
    let draft = DraftRow {
        room_id: "r1".to_string(),
        original_name: "a.pdf".to_string(),
        mime_type: "application/pdf".to_string(),
        size_bytes: 42,
        is_shared: 0,
    };
    let e = share_announcement("slug", "p1", "Ann", "viewer", "f1".to_string(), Some(draft.clone()), 7).unwrap();
    assert_eq!((e.slug.as_str(), e.id.as_str(), e.name.as_str(), e.size, e.ts), ("slug", "f1", "a.pdf", 42, 7));
    assert_eq!((e.uploader_name.as_str(), e.role.as_str(), e.mime.as_str()), ("Ann", "viewer", "application/pdf"));
    let mut shared = draft;
    shared.is_shared = 1;
    assert!(share_announcement("slug", "p1", "Ann", "viewer", "f1".to_string(), Some(shared), 7).is_none());
    assert!(share_announcement("slug", "p1", "Ann", "viewer", "f1".to_string(), None, 7).is_none());
}

#[test]
fn only_presenters_pin_known_tiles() {
    let stream = TileField::Text("stream".to_string());
    assert_eq!(focus_change("viewer", &stream), FocusChange::Ignore);
    assert_eq!(focus_change("presenter", &stream), FocusChange::Pin(Some(Tile::Stream)));
    assert_eq!(focus_change("presenter", &TileField::Text("share".to_string())), FocusChange::Pin(Some(Tile::Share)));
    assert_eq!(focus_change("presenter", &TileField::Null), FocusChange::Pin(None));
    assert_eq!(focus_change("presenter", &TileField::Absent), FocusChange::Pin(None));
    assert_eq!(focus_change("presenter", &TileField::Text("camera".to_string())), FocusChange::Ignore);
    assert_eq!(focus_change("presenter", &TileField::Other), FocusChange::Ignore);
}

#[test]
fn focus_board_keeps_one_pin_per_room() {
    let mut b = FocusBoard::new();
    assert_eq!(b.get("r"), None);
    b.set("r", Some(Tile::Stream));
    b.set("s", Some(Tile::Share));
    assert_eq!(b.get("r"), Some(Tile::Stream));
    b.set("r", Some(Tile::Share));
    assert_eq!(b.get("r"), Some(Tile::Share));
    assert_eq!(b.get("s"), Some(Tile::Share));
    b.set("r", None);
    assert_eq!(b.get("r"), None);
    assert_eq!(b.get("s"), Some(Tile::Share));
    assert_eq!(Tile::Stream.as_str(), "stream");
}

#[test]
fn room_events_become_hub_actions() {
    assert!(matches!(hub_action(RoomEvent::Live("r".into())), HubAction::Broadcast { slug, notice: Notice::RoomLive } if slug == "r"));
    assert!(matches!(hub_action(RoomEvent::Pending("r".into())), HubAction::Broadcast { notice: Notice::RoomPending, .. }));
    assert!(matches!(hub_action(RoomEvent::Ended("r".into())), HubAction::CloseRoom { slug } if slug == "r"));
    let a = hub_action(RoomEvent::StreamAssigned(StreamKeyAssignedEvent { slug: "r".into(), stream_key: "k".into() }));
    assert!(matches!(a, HubAction::Broadcast { notice: Notice::StreamAssigned(k), .. } if k == "k"));
    assert!(matches!(hub_action(RoomEvent::StreamRemoved("r".into())), HubAction::Broadcast { notice: Notice::StreamRemoved, .. }));
    let a = hub_action(RoomEvent::FileRemoved(FileUnsharedEvent { slug: "r".into(), id: "f".into() }));
    assert!(matches!(a, HubAction::Broadcast { slug, notice: Notice::FileRemoved(i) } if slug == "r" && i == "f"));
    let shared = FileSharedEvent {
        slug: "r".into(),
        id: "f".into(),
        participant_id: "p".into(),
        uploader_name: "A".into(),
        role: "viewer".into(),
        name: "n".into(),
        size: 1,
        mime: "text/plain".into(),
        ts: 2,
    };
    assert!(matches!(hub_action(RoomEvent::FileShared(shared)), HubAction::Broadcast { notice: Notice::FileShared(e), .. } if e.id == "f"));
    let a = hub_action(RoomEvent::Kicked(KickedEvent { slug: "r".into(), participant_id: "p".into() }));
    assert!(matches!(a, HubAction::Eject { slug, participant_id, notice: Notice::Kicked } if slug == "r" && participant_id == "p"));
    let a = hub_action(RoomEvent::HostRevoked(KickedEvent { slug: "r".into(), participant_id: "p".into() }));
    assert!(matches!(a, HubAction::Eject { notice: Notice::HostRevoked, .. }));
}

#[test]
fn history_is_sent_oldest_first() {
    assert_eq!(oldest_first(vec![3, 2, 1]), vec![1, 2, 3]);
    assert_eq!(oldest_first(Vec::<u8>::new()), Vec::<u8>::new());
}

#[test]
fn chat_messages_get_an_id_and_a_time() {
    assert!(new_chat_message("   ").is_none());
    let m = new_chat_message("hello").unwrap();
    assert_eq!(m.text, "hello");
    assert_eq!(m.id.len(), 36);
    assert_eq!(m.id.matches('-').count(), 4);
    assert!(m.ts > 1_600_000_000_000);
    let n = new_chat_message("hello").unwrap();
    assert_ne!(m.id, n.id);
}

#[test]
fn client_messages_are_routed_by_type() {
    assert_eq!(classify_message("chat:message"), ClientMessage::Chat);
    assert_eq!(classify_message("pointer:move"), ClientMessage::PointerMove);
    assert_eq!(classify_message("pointer:hide"), ClientMessage::PointerHide);
    assert_eq!(classify_message("file:share"), ClientMessage::FileShare);
    assert_eq!(classify_message("focus:set"), ClientMessage::FocusSet);
    assert_eq!(classify_message("auth"), ClientMessage::Unknown);
    assert_eq!(classify_message("Chat:message"), ClientMessage::Unknown);
}
