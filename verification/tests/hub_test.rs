use stream_backend::hub::Hub;

fn roster(h: &Hub<u32, &'static str>, slug: &str) -> Vec<(String, String, String, u32)> {
    match h.members_of(slug) {
        Some(ms) => ms
            .iter()
            .map(|m| (m.id.clone(), m.name.clone(), m.role.clone(), m.link))
            .collect(),
        None => Vec::new(),
    }
}

#[test]
fn connecting_adds_members_in_order() {
    let mut h: Hub<u32, &'static str> = Hub::new();
    assert!(h.members_of("r").is_none());
    assert!(h.connect("r", "a", "Alice", "viewer", 1).is_none());
    assert!(h.connect("r", "b", "Bob", "presenter", 2).is_none());
    assert!(h.connect("other", "a", "Alice", "viewer", 3).is_none());
    assert_eq!(
        roster(&h, "r"),
        vec![
            ("a".into(), "Alice".into(), "viewer".into(), 1),
            ("b".into(), "Bob".into(), "presenter".into(), 2)
        ]
    );
    assert_eq!(roster(&h, "other").len(), 1);
}

#[test]
fn reconnecting_keeps_the_place_and_cancels_the_disconnect() {
    let mut h: Hub<u32, &'static str> = Hub::new();
    h.connect("r", "a", "Alice", "viewer", 1);
    h.connect("r", "b", "Bob", "viewer", 2);
    assert_eq!(h.set_disconnect_timer("r", "a", "timer-1"), None);
    let cancelled = h.connect("r", "a", "Someone else", "presenter", 9);
    assert_eq!(cancelled, Some("timer-1"));
    assert_eq!(
        roster(&h, "r"),
        vec![
            ("a".into(), "Alice".into(), "viewer".into(), 9),
            ("b".into(), "Bob".into(), "viewer".into(), 2)
        ]
    );
    // No timer is left pending for the reconnected member.
    assert_eq!(h.connect("r", "a", "Alice", "viewer", 10), None);
}

#[test]
fn timers_for_absent_members_come_back() {
    let mut h: Hub<u32, &'static str> = Hub::new();
    assert_eq!(h.set_disconnect_timer("r", "a", "t"), Some("t"));
    h.connect("r", "a", "Alice", "viewer", 1);
    assert_eq!(h.set_disconnect_timer("r", "zz", "t"), Some("t"));
    assert_eq!(h.set_disconnect_timer("r", "a", "t1"), None);
    assert_eq!(h.set_disconnect_timer("r", "a", "t2"), Some("t1"));
}

#[test]
fn removing_the_last_member_closes_the_room() {
    let mut h: Hub<u32, &'static str> = Hub::new();
    h.connect("r", "a", "Alice", "viewer", 1);
    h.connect("r", "b", "Bob", "viewer", 2);
    h.connect("r", "c", "Cy", "viewer", 3);
    let gone = h.remove_member("r", "b").unwrap();
    assert_eq!(gone.id, "b");
    assert_eq!(gone.link, 2);
    assert_eq!(
        roster(&h, "r").iter().map(|m| m.0.clone()).collect::<Vec<_>>(),
        vec!["a".to_string(), "c".to_string()]
    );
    assert!(h.remove_member("r", "b").is_none());
    assert!(h.remove_member("nowhere", "a").is_none());
    h.remove_member("r", "a");
    h.remove_member("r", "c");
    assert!(h.members_of("r").is_none());
}

#[test]
fn ending_a_room_returns_everyone() {
    let mut h: Hub<u32, &'static str> = Hub::new();
    h.connect("r", "a", "Alice", "viewer", 1);
    h.connect("r", "b", "Bob", "viewer", 2);
    h.connect("s", "c", "Cy", "viewer", 3);
    h.set_disconnect_timer("r", "b", "tb");
    let gone = h.end_room("r");
    assert_eq!(gone.iter().map(|m| m.link).collect::<Vec<_>>(), vec![1, 2]);
    assert_eq!(gone[1].timer, Some("tb"));
    assert!(h.members_of("r").is_none());
    assert_eq!(roster(&h, "s").len(), 1);
    assert!(h.end_room("r").is_empty());
}
