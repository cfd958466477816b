use stream_backend::redaction::{redact_uri, REDACTED};

#[test]
fn secrets_in_the_query_are_redacted() {
    assert_eq!(REDACTED, "[REDACTED]");
    assert_eq!(
        redact_uri("/api/public/rooms/abc/files?participantId=p1&token=deadbeef"),
        "/api/public/rooms/abc/files?participantId=p1&token=[REDACTED]"
    );
    assert_eq!(
        redact_uri("/api/watch/x?password=s3cret&presenter_key=k&token="),
        "/api/watch/x?password=[REDACTED]&presenter_key=[REDACTED]&token=[REDACTED]"
    );
}

#[test]
fn everything_else_is_kept() {
    assert_eq!(redact_uri("/api/rooms"), "/api/rooms");
    assert_eq!(redact_uri("/api/rooms?"), "/api/rooms?");
    assert_eq!(redact_uri("/a?tokens=1&xtoken=2&Token=3"), "/a?tokens=1&xtoken=2&Token=3");
    assert_eq!(redact_uri("/a?token&&b=1"), "/a?token&&b=1");
    assert_eq!(redact_uri("/a?b=token=1&token=x=y"), "/a?b=token=1&token=[REDACTED]");
    assert_eq!(redact_uri("/a?x=1?token=2"), "/a?x=1?token=2");
    assert_eq!(redact_uri(""), "");
}
