use stream_backend::livekit::{livekit_grant, livekit_grant_at, LIVEKIT_TOKEN_TTL_SECS};

#[test]
fn grants_name_the_role_and_last_six_hours() {
    let g = livekit_grant_at("APIkey", "pid", "Ann", "room-slug", "viewer", 1000).unwrap();
    assert_eq!(g.issuer, "APIkey");
    assert_eq!(g.identity, "pid");
    assert_eq!(g.name, "Ann");
    assert_eq!(g.room, "room-slug");
    assert_eq!(g.role, "viewer");
    assert_eq!(g.not_before, 1000);
    assert_eq!(g.expires, 1000 + 21600);
    assert_eq!(LIVEKIT_TOKEN_TTL_SECS, 21600);
}

#[test]
fn grants_without_a_role_are_refused() {
    assert!(livekit_grant_at("k", "p", "n", "r", "", 0).is_err());
    assert!(livekit_grant("k", "p", "n", "r", "").is_err());
    let g = livekit_grant("k", "p", "n", "r", "presenter").unwrap();
    assert_eq!(g.expires - g.not_before, 21600);
}
