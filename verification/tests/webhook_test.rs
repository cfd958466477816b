use base64::Engine;
use hmac::{Hmac, Mac};
use stream_backend::error::ErrorKind;
use stream_backend::webhook::{
    admission_decision, extract_stream_key, verify_admission_signature, Admission, AdmissionRequest,
};

fn sign(secret: &str, body: &[u8]) -> String {
    let mut mac = Hmac::<sha1::Sha1>::new_from_slice(secret.as_bytes()).unwrap();
    mac.update(body);
    base64::engine::general_purpose::URL_SAFE_NO_PAD.encode(mac.finalize().into_bytes())
}

#[test]
fn stream_key_from_ingest_urls() {
    assert_eq!(extract_stream_key("rtmp://host:1935/app/key123"), Some("key123".to_string()));
    assert_eq!(extract_stream_key("srt://host:9999/app/k?x=1"), Some("k".to_string()));
    assert_eq!(extract_stream_key("http://h/app/key?token=abc"), Some("key".to_string()));
    assert_eq!(extract_stream_key("rtmp://host/app/key/"), Some("key".to_string()));
    assert_eq!(extract_stream_key("/app/stream"), Some("stream".to_string()));
    assert_eq!(extract_stream_key("rtmp://host"), None);
    assert_eq!(extract_stream_key("rtmp://host/"), None);
    assert_eq!(extract_stream_key(""), None);
    assert_eq!(extract_stream_key("rtmp://host/app/?q"), Some("".to_string()));
}

#[test]
fn signature_must_match_the_body() {
    let body = br#"{"request":{"direction":"incoming","url":"rtmp://h/app/k"}}"#;
    let good = sign("hook-secret", body);
    assert!(verify_admission_signature(Some(&good), "hook-secret", body).is_ok());

    let e = verify_admission_signature(None, "hook-secret", body).unwrap_err();
    assert_eq!((e.kind, e.message.as_str()), (ErrorKind::Unauthorized, "Missing signature"));

    let e = verify_admission_signature(Some(&good), "other-secret", body).unwrap_err();
    assert_eq!((e.kind, e.message.as_str()), (ErrorKind::Unauthorized, "Invalid signature"));

    let e = verify_admission_signature(Some(&good), "hook-secret", b"{}").unwrap_err();
    assert_eq!(e.message, "Invalid signature");
}

#[test]
fn admission_decisions() {
    let e = admission_decision(None).unwrap_err();
    assert_eq!((e.kind, e.message.as_str()), (ErrorKind::BadRequest, "Missing request object"));

    let out = admission_decision(Some(AdmissionRequest {
        direction: Some("outgoing".to_string()),
        url: None,
    }))
    .unwrap();
    assert!(matches!(out, Admission::Allow));

    let out = admission_decision(Some(AdmissionRequest { direction: None, url: None })).unwrap();
    assert!(matches!(out, Admission::Allow));

    let out = admission_decision(Some(AdmissionRequest {
        direction: Some("incoming".to_string()),
        url: Some("rtmp://ome:1935/app/abc123".to_string()),
    }))
    .unwrap();
    match out {
        Admission::GoLive(k) => assert_eq!(k, "abc123"),
        Admission::Allow => panic!("expected a key"),
    }

    let e = admission_decision(Some(AdmissionRequest {
        direction: Some("incoming".to_string()),
        url: None,
    }))
    .unwrap_err();
    assert_eq!((e.kind, e.message.as_str()), (ErrorKind::BadRequest, "Cannot extract stream key"));
}
