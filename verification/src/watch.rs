//! SRT watch links: a native player opens a room's shared link and gets SRT
//! connection details with a short-lived `streamid` signed as a media-server
//! SignedPolicy (HMAC-SHA1 over the stream path and its expiry policy).
use vstd::prelude::*;

use crate::auth::{bcrypt_verify, password_matches};
use crate::crypto::{base64, base64_url_no_pad, hmac_sha1, hmac_sha1_tag};
use crate::error::{fails_with, AppError, ErrorKind};
use crate::text::{append_str, decimal};
use crate::time::unix_now_millis;

verus! {

/// Lifetime of a signed streamid: it only has to outlast the SRT handshake,
/// since the player fetches a new one on every (re)connect.
pub const WATCH_TTL_SECONDS: u64 = 30;

/// The policy JSON that carries a streamid's expiry: `{"url_expire":N}`.
pub open spec fn policy_json(expire_ms: nat) -> Seq<char> {
    "{\"url_expire\":"@ + decimal(expire_ms) + "}"@
}

/// `serde_json` rendering of the object `{"url_expire": expire_ms}`: the
/// compact form, the number in plain decimal digits.
#[verifier::external_body]
fn url_expire_policy(expire_ms: u64) -> (res: String)
    ensures
        res@ == policy_json(expire_ms as nat),
{
    let mut map = serde_json::Map::new();
    map.insert("url_expire".to_string(), serde_json::Value::from(expire_ms));
    serde_json::Value::Object(map).to_string()
}

/// The signed part of a streamid: the stream path and its base64url policy.
pub open spec fn signed_part(stream_name: Seq<char>, expire_ms: nat) -> Seq<char> {
    "default/live/"@ + stream_name + "?policy="@ + base64(
        vstd::utf8::encode_utf8(policy_json(expire_ms)),
        true,
        false,
    )
}

/// A complete SignedPolicy streamid: the signed part, then the base64url
/// HMAC-SHA1 of that part's bytes under the policy secret.
pub open spec fn signed_streamid(secret: Seq<char>, stream_name: Seq<char>, expire_ms: nat) -> Seq<
    char,
> {
    signed_part(stream_name, expire_ms) + "&signature="@ + base64(
        hmac_sha1(
            vstd::utf8::encode_utf8(secret),
            vstd::utf8::encode_utf8(signed_part(stream_name, expire_ms)),
        ),
        true,
        false,
    )
}

/// Mints the SignedPolicy streamid for `stream_name`, expiring at
/// `expire_ms` (milliseconds since the Unix epoch).
pub fn sign_streamid(secret: &str, stream_name: &str, expire_ms: u64) -> (res: Result<String, AppError>)
    ensures
        res matches Ok(s) && s@ == signed_streamid(secret@, stream_name@, expire_ms as nat),
{
    let policy_json = url_expire_policy(expire_ms);
    let policy = base64_url_no_pad(policy_json.as_str().as_bytes());
    let mut signed = String::new();
    append_str(&mut signed, "default/live/");
    append_str(&mut signed, stream_name);
    append_str(&mut signed, "?policy=");
    append_str(&mut signed, policy.as_str());
    let tag = match hmac_sha1_tag(secret.as_bytes(), signed.as_str().as_bytes()) {
        Ok(t) => t,
        Err(_) => return Err(AppError::new(ErrorKind::Internal, "HMAC init error")),
    };
    let signature = base64_url_no_pad(tag.as_slice());
    let mut out = signed.clone();
    append_str(&mut out, "&signature=");
    append_str(&mut out, signature.as_str());
    Ok(out)
}

/// What the watch endpoint reads of a room that is neither ended nor
/// expired.
#[derive(Clone, Debug)]
pub struct WatchRoom {
    pub name: String,
    pub password_hash: Option<String>,
    pub key_token: Option<String>,
}

/// The part of a watch answer that the library decides; the SRT host, port
/// and latency are deployment settings.
#[derive(Clone, Debug)]
pub struct WatchLink {
    pub streamid: String,
    pub ttl_seconds: u64,
    pub title: String,
}

/// The room's password hash, when it has a non-empty one.
pub open spec fn required_hash(r: WatchRoom) -> Option<Seq<char>> {
    match r.password_hash {
        Some(h) => if h@.len() > 0 {
            Some(h@)
        } else {
            None
        },
        None => None,
    }
}

/// The password a request supplied, empty when it supplied none.
pub open spec fn supplied(password: Option<String>) -> Seq<char> {
    match password {
        Some(p) => p@,
        None => Seq::<char>::empty(),
    }
}

/// `GET /api/watch/{slug}` at `now_ms`, given the room (`None` when no room
/// with that slug is open): 404 `Room not found` without a room or without a
/// stream key; for a password room, 403 `Password required` when none is
/// supplied and 403 `Wrong password` when it does not match; otherwise the
/// streamid signed to expire thirty seconds from now, and the room's name.
pub fn watch_link_at(room: Option<WatchRoom>, password: Option<String>, secret: &str, now_ms: u64) -> (res:
    Result<WatchLink, AppError>)
    requires
        now_ms + WATCH_TTL_SECONDS * 1000 <= u64::MAX,
    ensures
        room is None ==> fails_with(res, ErrorKind::NotFound, "Room not found"@),
        room matches Some(r) ==> (r.key_token is None ==> fails_with(
            res,
            ErrorKind::NotFound,
            "Room not found"@,
        )),
        room matches Some(r) ==> (r.key_token is Some && required_hash(r) is Some
            && supplied(password).len() == 0 ==> fails_with(
            res,
            ErrorKind::Forbidden,
            "Password required"@,
        )),
        room matches Some(r) ==> (r.key_token is Some && required_hash(r) is Some
            && supplied(password).len() > 0 && !password_matches(
            supplied(password),
            required_hash(r)->0,
        ) ==> fails_with(res, ErrorKind::Forbidden, "Wrong password"@)),
        room matches Some(r) ==> (r.key_token is Some && (required_hash(r) is None || (
        supplied(password).len() > 0 && password_matches(supplied(password), required_hash(r)->0)))
            ==> (res matches Ok(link) && link.streamid@ == signed_streamid(
            secret@,
            r.key_token->0@,
            (now_ms + WATCH_TTL_SECONDS * 1000) as nat,
        ) && link.ttl_seconds == WATCH_TTL_SECONDS && link.title@ == r.name@)),
{
    let r = match room {
        Some(r) => r,
        None => return Err(AppError::new(ErrorKind::NotFound, "Room not found")),
    };
    let stream_name = match &r.key_token {
        Some(k) => k.clone(),
        None => return Err(AppError::new(ErrorKind::NotFound, "Room not found")),
    };
    assert(r.key_token matches Some(k) && stream_name@ == k@);
    if let Some(hash) = &r.password_hash {
        if !hash.as_str().is_empty() {
            let provided = match &password {
                Some(p) => p.clone(),
                None => String::new(),
            };
            if provided.as_str().is_empty() {
                return Err(AppError::new(ErrorKind::Forbidden, "Password required"));
            }
            let valid = match bcrypt_verify(provided.as_str(), hash.as_str()) {
                Ok(v) => v,
                Err(_) => return Err(AppError::new(ErrorKind::Forbidden, "Wrong password")),
            };
            if !valid {
                return Err(AppError::new(ErrorKind::Forbidden, "Wrong password"));
            }
        }
    }
    let expire_ms = now_ms + WATCH_TTL_SECONDS * 1000;
    let streamid = match sign_streamid(secret, stream_name.as_str(), expire_ms) {
        Ok(s) => s,
        Err(e) => return Err(e),
    };
    Ok(WatchLink { streamid, ttl_seconds: WATCH_TTL_SECONDS, title: r.name })
}

/// `GET /api/watch/{slug}` now: as `watch_link_at` at the clock's current
/// time (held below the largest time whose expiry still fits).
pub fn watch_link(room: Option<WatchRoom>, password: Option<String>, secret: &str) -> (res: Result<
    WatchLink,
    AppError,
>)
    ensures
        room is None ==> fails_with(res, ErrorKind::NotFound, "Room not found"@),
        room matches Some(r) ==> (r.key_token is None ==> fails_with(
            res,
            ErrorKind::NotFound,
            "Room not found"@,
        )),
        room matches Some(r) ==> (r.key_token is Some && required_hash(r) is Some
            && supplied(password).len() == 0 ==> fails_with(
            res,
            ErrorKind::Forbidden,
            "Password required"@,
        )),
        room matches Some(r) ==> (r.key_token is Some && required_hash(r) is Some
            && supplied(password).len() > 0 && !password_matches(
            supplied(password),
            required_hash(r)->0,
        ) ==> fails_with(res, ErrorKind::Forbidden, "Wrong password"@)),
        room matches Some(r) ==> (r.key_token is Some && (required_hash(r) is None || (
        supplied(password).len() > 0 && password_matches(supplied(password), required_hash(r)->0)))
            ==> (res matches Ok(link) && link.ttl_seconds == WATCH_TTL_SECONDS && link.title@
            == r.name@ && exists|expire_ms: nat|
            #![trigger signed_streamid(secret@, r.key_token->0@, expire_ms)]
            link.streamid@ == signed_streamid(secret@, r.key_token->0@, expire_ms))),
{
    let now = unix_now_millis();
    let now = if now > u64::MAX - WATCH_TTL_SECONDS * 1000 {
        u64::MAX - WATCH_TTL_SECONDS * 1000
    } else {
        now
    };
    watch_link_at(room, password, secret, now)
}

} // verus!
