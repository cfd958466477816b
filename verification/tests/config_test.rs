use stream_backend::config::{AppConfig, EnvVars};

fn vars() -> EnvVars {
    EnvVars {
        jwt_secret: Some("j".repeat(32)),
        admin_password: Some("admin-password".to_string()),
        ome_webhook_secret: Some("w".repeat(32)),
        livekit_api_key: Some("APIkey".to_string()),
        livekit_api_secret: Some("l".repeat(32)),
        ..EnvVars::default()
    }
}

#[test]
fn defaults_fill_optional_settings() {
    let c = AppConfig::from_vars(vars()).unwrap();
    assert_eq!(c.ome_api_url, "http://stream-ome:8081/v1");
    assert_eq!(c.ome_api_token, "");
    assert_eq!(c.livekit_internal_url, "http://stream-livekit:7880");
    assert_eq!(c.livekit_url, "ws://localhost:7880");
    assert_eq!(c.port, 4001);
    assert_eq!(c.db_path, "/data/stream.db");
    assert_eq!(c.data_path, "/data");
    assert_eq!(c.ome_webhook_secret, "w".repeat(32));
    assert_eq!(c.livekit_api_key, "APIkey");
}

#[test]
fn port_parses_or_falls_back() {
    let mut v = vars();
    v.port = Some("8080".to_string());
    assert_eq!(AppConfig::from_vars(v).unwrap().port, 8080);
    let mut v = vars();
    v.port = Some("70000".to_string());
    assert_eq!(AppConfig::from_vars(v).unwrap().port, 4001);
    let mut v = vars();
    v.port = Some("abc".to_string());
    assert_eq!(AppConfig::from_vars(v).unwrap().port, 4001);
}

#[test]
fn required_settings_are_fatal() {
    let cases: Vec<(fn(&mut EnvVars), &str)> = vec![
        (|v| v.jwt_secret = None, "FATAL: JWT_SECRET must be set"),
        (|v| v.jwt_secret = Some("short".to_string()), "FATAL: JWT_SECRET must be at least 32 chars"),
        (|v| v.admin_password = None, "FATAL: ADMIN_PASSWORD must be set"),
        (|v| v.admin_password = Some(String::new()), "FATAL: ADMIN_PASSWORD must be at least 12 chars"),
        (|v| v.admin_password = Some("elevenchars".to_string()), "FATAL: ADMIN_PASSWORD must be at least 12 chars"),
        (|v| v.ome_webhook_secret = None, "FATAL: OME_WEBHOOK_SECRET must be set"),
        (|v| v.ome_webhook_secret = Some("w".repeat(31)), "FATAL: OME_WEBHOOK_SECRET must be at least 32 chars"),
        (|v| v.livekit_api_key = None, "FATAL: LIVEKIT_API_KEY must be set"),
        (|v| v.livekit_api_secret = None, "FATAL: LIVEKIT_API_SECRET must be set"),
        (|v| v.livekit_api_secret = Some("x".to_string()), "FATAL: LIVEKIT_API_SECRET must be at least 32 chars"),
    ];
    for (change, message) in cases {
        let mut v = vars();
        change(&mut v);
        assert_eq!(AppConfig::from_vars(v).unwrap_err(), message);
    }
}

#[test]
fn the_first_failing_check_is_reported() {
    let mut v = vars();
    v.jwt_secret = None;
    v.admin_password = None;
    assert_eq!(AppConfig::from_vars(v).unwrap_err(), "FATAL: JWT_SECRET must be set");
}

#[test]
fn secret_length_counts_bytes() {
    let mut v = vars();
    // 16 two-byte characters are 32 bytes.
    v.jwt_secret = Some("é".repeat(16));
    assert!(AppConfig::from_vars(v).is_ok());
}
