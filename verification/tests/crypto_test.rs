use base64::Engine;
use hmac::{Hmac, Mac};
use stream_backend::crypto::{hex_of, random_hex};
use stream_backend::ome::basic_authorization;
use stream_backend::watch::sign_streamid;
use stream_backend::webhook::verify_admission_signature;

#[test]
fn base64_alphabets_and_padding() {
    // The standard alphabet, padded.
    assert_eq!(basic_authorization("f"), "Basic Zg==");
    assert_eq!(basic_authorization("fo"), "Basic Zm8=");
    assert_eq!(basic_authorization("foo"), "Basic Zm9v");
    assert_eq!(basic_authorization("user:pass"), "Basic dXNlcjpwYXNz");
    assert_eq!(basic_authorization("\u{ff}"), "Basic w78=");
    // The URL-safe alphabet, unpadded: `{"url_expire":7}` encodes to a
    // string that ends without `=`.
    let id = sign_streamid("k", "s", 7).unwrap();
    let (signed, _) = id.split_once("&signature=").unwrap();
    assert_eq!(signed, "default/live/s?policy=eyJ1cmxfZXhwaXJlIjo3fQ");
}

#[test]
fn hmac_sha1_known_vector() {
    // The "Jefe" vector of RFC 2202, as the webhook signs bodies.
    let tag = decode_hex("effcdf6ae5eb2fa2d27416d5f184df9c259a7c79");
    let sig = base64::engine::general_purpose::URL_SAFE_NO_PAD.encode(&tag);
    assert!(verify_admission_signature(Some(&sig), "Jefe", b"what do ya want for nothing?").is_ok());
    // Keys of any length are accepted.
    assert!(sign_streamid("", "x", 1).is_ok());
    assert!(sign_streamid(&"k".repeat(200), "x", 1).is_ok());
}

#[test]
fn constant_time_equality() {
    let body = b"{\"x\":1}";
    let good = {
        let mut mac = Hmac::<sha1::Sha1>::new_from_slice(b"secret").unwrap();
        mac.update(body);
        base64::engine::general_purpose::URL_SAFE_NO_PAD.encode(mac.finalize().into_bytes())
    };
    assert!(verify_admission_signature(Some(&good), "secret", body).is_ok());
    let mut bad = good.clone();
    bad.pop();
    assert!(verify_admission_signature(Some(&bad), "secret", body).is_err());
    assert!(verify_admission_signature(Some(""), "secret", body).is_err());
}

#[test]
fn hex_is_lowercase_two_digits_per_byte() {
    assert_eq!(hex_of(&[]), "");
    assert_eq!(hex_of(&[0x00, 0x0f, 0xa0, 0xff]), "000fa0ff");
}

#[test]
fn random_tokens_have_their_shape() {
    let t = random_hex(24);
    assert_eq!(t.len(), 48);
    assert!(t.chars().all(|c| c.is_ascii_digit() || ('a'..='f').contains(&c)));
    assert_ne!(random_hex(16), random_hex(16));
    assert_eq!(random_hex(0), "");
}

fn decode_hex(s: &str) -> Vec<u8> {
    (0..s.len()).step_by(2).map(|i| u8::from_str_radix(&s[i..i + 2], 16).unwrap()).collect()
}
