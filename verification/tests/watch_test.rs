use base64::Engine;
use hmac::{Hmac, Mac};
use stream_backend::error::ErrorKind;
use stream_backend::watch::{sign_streamid, watch_link, watch_link_at, WatchRoom, WATCH_TTL_SECONDS};

const POLICY_SECRET: &str = "signed-policy-secret";

fn expected_signature(secret: &str, signed: &str) -> String {
    let mut mac = Hmac::<sha1::Sha1>::new_from_slice(secret.as_bytes()).unwrap();
    mac.update(signed.as_bytes());
    base64::engine::general_purpose::URL_SAFE_NO_PAD.encode(mac.finalize().into_bytes())
}

fn room(key: Option<&str>, password_hash: Option<String>) -> WatchRoom {
    WatchRoom {
        name: "Project X".to_string(),
        password_hash,
        key_token: key.map(|k| k.to_string()),
    }
}

#[test]
fn streamid_is_signed_policy() {
    let id = sign_streamid(POLICY_SECRET, "key123", 1_700_000_030_000).unwrap();
    let (signed, sig) = id.split_once("&signature=").unwrap();
    let policy = base64::engine::general_purpose::URL_SAFE_NO_PAD.encode(r#"{"url_expire":1700000030000}"#);
    assert_eq!(signed, format!("default/live/key123?policy={}", policy));
    assert_eq!(sig, expected_signature(POLICY_SECRET, signed));
}

#[test]
fn unknown_slug_returns_404() {
    let e = watch_link_at(None, None, POLICY_SECRET, 0).unwrap_err();
    assert_eq!((e.status(), e.message.as_str()), (404, "Room not found"));
}

#[test]
fn room_without_stream_key_returns_404() {
    let e = watch_link_at(Some(room(None, None)), None, POLICY_SECRET, 0).unwrap_err();
    assert_eq!((e.status(), e.message.as_str()), (404, "Room not found"));
}

#[test]
fn returns_signed_srt_details() {
    let now_ms = 1_700_000_000_000u64;
    let link = watch_link_at(Some(room(Some("key123"), None)), None, POLICY_SECRET, now_ms).unwrap();
    assert_eq!(link.ttl_seconds, 30);
    assert_eq!(WATCH_TTL_SECONDS, 30);
    assert_eq!(link.title, "Project X");
    let (signed, sig) = link.streamid.split_once("&signature=").unwrap();
    assert!(signed.starts_with("default/live/key123?policy="));
    assert_eq!(sig, expected_signature(POLICY_SECRET, signed));
    let policy_b64 = signed.split("?policy=").nth(1).unwrap();
    let policy = String::from_utf8(
        base64::engine::general_purpose::URL_SAFE_NO_PAD.decode(policy_b64).unwrap(),
    )
    .unwrap();
    let v: serde_json::Value = serde_json::from_str(&policy).unwrap();
    assert_eq!(v["url_expire"].as_u64(), Some(now_ms + 30_000));
}

#[test]
fn live_link_expires_in_the_future() {
    let link = watch_link(Some(room(Some("k"), None)), None, POLICY_SECRET).unwrap();
    let (signed, _) = link.streamid.split_once("&signature=").unwrap();
    let policy_b64 = signed.split("?policy=").nth(1).unwrap();
    let policy = base64::engine::general_purpose::URL_SAFE_NO_PAD.decode(policy_b64).unwrap();
    let v: serde_json::Value = serde_json::from_slice(&policy).unwrap();
    let now_ms = std::time::SystemTime::now()
        .duration_since(std::time::UNIX_EPOCH)
        .unwrap()
        .as_millis() as u64;
    assert!(v["url_expire"].as_u64().unwrap() > now_ms);
}

#[test]
fn password_room_requires_password() {
    let hash = bcrypt::hash("s3cret", 4).unwrap();
    let locked = room(Some("k"), Some(hash));
    let e = watch_link_at(Some(locked.clone()), None, POLICY_SECRET, 0).unwrap_err();
    assert_eq!((e.kind, e.message.as_str()), (ErrorKind::Forbidden, "Password required"));
    let e = watch_link_at(Some(locked.clone()), Some(String::new()), POLICY_SECRET, 0).unwrap_err();
    assert_eq!(e.message, "Password required");
    let e = watch_link_at(Some(locked.clone()), Some("nope".to_string()), POLICY_SECRET, 0).unwrap_err();
    assert_eq!((e.status(), e.message.as_str()), (403, "Wrong password"));
    assert!(watch_link_at(Some(locked), Some("s3cret".to_string()), POLICY_SECRET, 0).is_ok());
}

#[test]
fn empty_password_hash_means_open_room() {
    let link = watch_link_at(Some(room(Some("k"), Some(String::new()))), None, POLICY_SECRET, 0);
    assert!(link.is_ok());
}
