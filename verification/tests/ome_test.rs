use stream_backend::ome::{
    api_url, basic_authorization, listed_streams, rooms_to_reset, stream_path, LiveRoom,
    ADMIN_STREAMS_PATH, LIVE_STREAMS_PATH,
};

#[test]
fn requests_use_basic_auth_and_the_configured_base() {
    assert_eq!(basic_authorization("ome-token"), "Basic b21lLXRva2Vu");
    assert_eq!(basic_authorization(""), "Basic ");
    assert_eq!(
        api_url("http://stream-ome:8081/v1", ADMIN_STREAMS_PATH),
        "http://stream-ome:8081/v1/vhosts/default/apps/app/streams"
    );
    assert_eq!(LIVE_STREAMS_PATH, "/vhosts/default/apps/live/streams");
    assert_eq!(stream_path("some-key"), "/vhosts/default/apps/app/streams/some-key");
}

#[test]
fn status_lists_named_non_conference_streams() {
    let names = vec![
        Some("key1".to_string()),
        None,
        Some("conf-room".to_string()),
        Some("key2".to_string()),
        Some("conf".to_string()),
    ];
    assert_eq!(listed_streams(names), vec!["key1".to_string(), "key2".to_string(), "conf".to_string()]);
}

#[test]
fn poller_resets_rooms_whose_stream_dropped() {
    let live = vec![
        LiveRoom { id: "1".into(), slug: "a".into(), key_token: "k1".into() },
        LiveRoom { id: "2".into(), slug: "b".into(), key_token: "k2".into() },
        LiveRoom { id: "3".into(), slug: "c".into(), key_token: "k3".into() },
    ];
    let active = vec!["k2".to_string(), "other".to_string()];
    let reset = rooms_to_reset(live, &active);
    assert_eq!(reset.iter().map(|r| r.id.as_str()).collect::<Vec<_>>(), vec!["1", "3"]);
    let none = rooms_to_reset(Vec::new(), &active);
    assert!(none.is_empty());
}
