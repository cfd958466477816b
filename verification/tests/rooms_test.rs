use stream_backend::rooms::{
    create_room, enter_room, generate_presenter_key, generate_slug, normalize_datetime,
    presenter_name, require_changed, slug_from_lowercase, stream_key_change, update_room,
    CreateRoomRequest, JsonField, RoomColumn, RoomPatch, SqlValue, StreamKeyChange,
};
use stream_backend::access::Role;
use stream_backend::error::ErrorKind;

fn is_hex(s: &str) -> bool {
    s.chars().all(|c| c.is_ascii_digit() || ('a'..='f').contains(&c))
}

fn empty_patch() -> RoomPatch {
    RoomPatch {
        name: JsonField::Absent,
        delivery_mode: JsonField::Absent,
        waiting_room: JsonField::Absent,
        expires_at: JsonField::Absent,
        stream_key_id: JsonField::Absent,
        password: JsonField::Absent,
    }
}

#[test]
fn datetimes_take_the_stored_form() {
    assert_eq!(normalize_datetime("2025-04-15T22:00:00.000Z"), "2025-04-15 22:00:00");
    assert_eq!(normalize_datetime("2025-04-15T22:00:00Z"), "2025-04-15 22:00:00");
    assert_eq!(normalize_datetime("2025-04-15 22:00:00"), "2025-04-15 22:00:00");
    assert_eq!(normalize_datetime("2025-04-15T22:00ZZ"), "2025-04-15 22:00");
    assert_eq!(normalize_datetime("2025-04-15T22:00:00.5+02:00"), "2025-04-15 22:00:00");
    assert_eq!(normalize_datetime(""), "");
}

#[test]
fn slugs_join_letter_and_digit_runs() {
    assert_eq!(slug_from_lowercase("my  room!", &[0xab, 0xcd, 0xef]), "my-room-abcdef");
    assert_eq!(slug_from_lowercase("--a--b--", &[0, 1, 2]), "a-b-000102");
    assert_eq!(slug_from_lowercase("café au lait", &[1, 2, 3]), "caf-au-lait-010203");
    assert_eq!(slug_from_lowercase("", &[0xff, 0, 0x10]), "-ff0010");
    let long = "a".repeat(100);
    let slug = slug_from_lowercase(&long, &[0, 0, 0]);
    assert_eq!(slug, format!("{}-000000", "a".repeat(80)));
}

#[test]
fn generated_slugs_lowercase_the_name_and_add_a_random_suffix() {
    let slug = generate_slug("Test Room");
    assert!(slug.starts_with("test-room-"));
    assert_eq!(slug.len(), "test-room-".len() + 6);
    assert!(is_hex(&slug["test-room-".len()..]));
    assert!(slug.chars().all(|c| c.is_ascii_alphanumeric() || c == '-'));
}

#[test]
fn presenter_keys_are_32_hex_digits() {
    let k = generate_presenter_key();
    assert_eq!(k.len(), 32);
    assert!(is_hex(&k));
}

#[test]
fn create_room_returns_400_without_name() {
    let e = create_room(CreateRoomRequest {
        name: None,
        password: None,
        delivery_mode: None,
        waiting_room: None,
        expires_at: None,
        stream_key_id: None,
    })
    .unwrap_err();
    assert_eq!((e.kind, e.message.as_str()), (ErrorKind::BadRequest, "Name is required"));
}

#[test]
fn create_room_succeeds() {
    let r = create_room(CreateRoomRequest {
        name: Some("Test Room".to_string()),
        password: None,
        delivery_mode: None,
        waiting_room: None,
        expires_at: Some("2030-01-02T03:04:05.000Z".to_string()),
        stream_key_id: Some("sk-1".to_string()),
    })
    .unwrap();
    assert_eq!(r.name, "Test Room");
    assert!(r.slug.starts_with("test-room-"));
    assert_eq!(r.delivery_mode, "webrtc");
    assert_eq!(r.waiting_room, 0);
    assert_eq!(r.expires_at.as_deref(), Some("2030-01-02 03:04:05"));
    assert_eq!(r.stream_key_id.as_deref(), Some("sk-1"));
    assert!(r.password_hash.is_none());
    assert_eq!(r.presenter_key.len(), 32);
    assert_eq!(r.id.len(), 36);
}

#[test]
fn create_room_with_password_and_waiting_room() {
    let r = create_room(CreateRoomRequest {
        name: Some("Locked".to_string()),
        password: Some("s3cret".to_string()),
        delivery_mode: Some("hls".to_string()),
        waiting_room: Some(true),
        expires_at: None,
        stream_key_id: None,
    })
    .unwrap();
    assert_eq!(r.delivery_mode, "hls");
    assert_eq!(r.waiting_room, 1);
    assert!(r.expires_at.is_none());
    let hash = r.password_hash.unwrap();
    assert!(bcrypt::verify("s3cret", &hash).unwrap());

    let r = create_room(CreateRoomRequest {
        name: Some("Open".to_string()),
        password: Some(String::new()),
        delivery_mode: None,
        waiting_room: Some(false),
        expires_at: None,
        stream_key_id: None,
    })
    .unwrap();
    assert!(r.password_hash.is_none());
    assert_eq!(r.waiting_room, 0);
}

#[test]
fn update_room_returns_404() {
    let mut p = empty_patch();
    p.name = JsonField::Text("New Name".to_string());
    let e = update_room(false, &p).unwrap_err();
    assert_eq!((e.status(), e.message.as_str()), (404, "Room not found"));
}

#[test]
fn update_room_changes_name() {
    let mut p = empty_patch();
    p.name = JsonField::Text("New Name".to_string());
    let u = update_room(true, &p).unwrap();
    assert_eq!(u.columns, vec![RoomColumn::Name]);
    assert!(matches!(&u.values[0], SqlValue::Text(s) if s == "New Name"));
    assert_eq!(u.sql.as_deref(), Some("UPDATE rooms SET name = ?1 WHERE id = ?2"));
}

#[test]
fn update_with_nothing_to_set_has_no_statement() {
    let mut p = empty_patch();
    p.name = JsonField::Null;
    p.delivery_mode = JsonField::Bool(true);
    let u = update_room(true, &p).unwrap();
    assert!(u.columns.is_empty());
    assert!(u.values.is_empty());
    assert!(u.sql.is_none());
}

#[test]
fn update_sets_every_column_in_order() {
    let p = RoomPatch {
        name: JsonField::Text("N".to_string()),
        delivery_mode: JsonField::Text("hls".to_string()),
        waiting_room: JsonField::Bool(true),
        expires_at: JsonField::Text("2030-01-01T00:00:00Z".to_string()),
        stream_key_id: JsonField::Null,
        password: JsonField::Text("pw".to_string()),
    };
    let u = update_room(true, &p).unwrap();
    assert_eq!(
        u.columns,
        vec![
            RoomColumn::Name,
            RoomColumn::DeliveryMode,
            RoomColumn::WaitingRoom,
            RoomColumn::ExpiresAt,
            RoomColumn::StreamKeyId,
            RoomColumn::PasswordHash,
        ]
    );
    assert_eq!(
        u.sql.as_deref(),
        Some(
            "UPDATE rooms SET name = ?1, delivery_mode = ?2, waiting_room = ?3, expires_at = ?4, \
             stream_key_id = ?5, password_hash = ?6 WHERE id = ?7"
        )
    );
    assert!(matches!(u.values[2], SqlValue::Int(1)));
    assert!(matches!(&u.values[3], SqlValue::Text(s) if s == "2030-01-01 00:00:00"));
    assert!(matches!(u.values[4], SqlValue::Null));
    match &u.values[5] {
        SqlValue::Text(h) => assert!(bcrypt::verify("pw", h).unwrap()),
        _ => panic!("expected a hash"),
    }
}

#[test]
fn update_clears_with_null_and_empty_password() {
    let mut p = empty_patch();
    p.waiting_room = JsonField::Text("yes".to_string());
    p.expires_at = JsonField::Null;
    p.password = JsonField::Text(String::new());
    let u = update_room(true, &p).unwrap();
    assert_eq!(
        u.columns,
        vec![RoomColumn::WaitingRoom, RoomColumn::ExpiresAt, RoomColumn::PasswordHash]
    );
    assert!(matches!(u.values[0], SqlValue::Int(0)));
    assert!(matches!(u.values[1], SqlValue::Null));
    assert!(matches!(u.values[2], SqlValue::Null));
    assert_eq!(
        u.sql.as_deref(),
        Some("UPDATE rooms SET waiting_room = ?1, expires_at = ?2, password_hash = ?3 WHERE id = ?4")
    );
}

#[test]
fn stream_key_changes_are_announced() {
    let key = JsonField::Text("sk".to_string());
    assert_eq!(stream_key_change(false, &key), Some(StreamKeyChange::Assigned));
    assert_eq!(stream_key_change(true, &key), None);
    assert_eq!(stream_key_change(true, &JsonField::Null), Some(StreamKeyChange::Removed));
    assert_eq!(stream_key_change(false, &JsonField::Null), None);
    assert_eq!(stream_key_change(true, &JsonField::Absent), None);
    assert_eq!(stream_key_change(false, &JsonField::Absent), None);
}

#[test]
fn host_names_are_trimmed_and_capped() {
    assert_eq!(presenter_name(None), "Host");
    assert_eq!(presenter_name(Some("   ".to_string())), "Host");
    assert_eq!(presenter_name(Some("  Alice \n".to_string())), "Alice");
    let long = "é".repeat(60);
    assert_eq!(presenter_name(Some(long)), "é".repeat(50));
}

#[test]
fn entering_a_room() {
    let e = enter_room(false, None).unwrap_err();
    assert_eq!((e.status(), e.message.as_str()), (404, "Room not found"));
    let h = enter_room(true, Some(" Bob ".to_string())).unwrap();
    assert_eq!(h.name, "Bob");
    assert_eq!(h.token.len(), 48);
    assert!(is_hex(&h.token));
    assert_eq!(h.participant_id.len(), 36);
    assert_eq!(h.role, Role::Presenter);
    assert_eq!(h.role.as_str(), "presenter");
    assert!(h.admitted);
    assert_eq!(enter_room(true, None).unwrap().name, "Host");
}

#[test]
fn writes_must_touch_a_row() {
    assert!(require_changed(1, "Participant not found").is_ok());
    let e = require_changed(0, "Room not found or already ended").unwrap_err();
    assert_eq!((e.status(), e.message.as_str()), (404, "Room not found or already ended"));
}
