//! Admin authentication: the bearer token a request carries, the claims an
//! admin token holds, and password login.
use vstd::prelude::*;

use crate::error::{fails_with, owned, AppError, ErrorKind};
use crate::text::{chars_of, starts_with, starts_with_str, string_of_range};
use crate::time::unix_now_secs;

verus! {

/// The claims of an admin JWT.
#[derive(Clone, Copy, Debug, PartialEq, Eq, Structural)]
pub struct AdminClaims {
    pub admin: bool,
    /// Expiry, in seconds since the Unix epoch.
    pub exp: usize,
}

/// A request that presented a valid admin token.
#[derive(Debug)]
pub struct AdminAuth(pub AdminClaims);

/// Admin tokens are valid for seven days.
pub const ADMIN_TOKEN_TTL_SECS: usize = 604800;

/// The token a request authenticates with: the `Authorization: Bearer <t>`
/// header when present, otherwise the `token` query parameter (so `<img>`,
/// `<video>` and new windows can reach admin endpoints).
pub open spec fn presented_token(authorization: Option<Seq<char>>, query_token: Option<Seq<char>>) -> Option<
    Seq<char>,
> {
    match authorization {
        Some(h) if starts_with(h, "Bearer "@) => Some(h.skip(7)),
        _ => query_token,
    }
}

pub fn bearer_token(authorization: Option<&str>, query_token: Option<String>) -> (res: Option<String>)
    ensures
        (match res {
            Some(t) => Some(t@),
            None => None,
        }) == presented_token(
            match authorization {
                Some(h) => Some(h@),
                None => None,
            },
            match query_token {
                Some(q) => Some(q@),
                None => None,
            },
        ),
{
    if let Some(h) = authorization {
        let hc = chars_of(h);
        if starts_with_str(&hc, "Bearer ") {
            proof {
                reveal_strlit("Bearer ");
            }
            return Some(string_of_range(&hc, 7, hc.len()));
        }
    }
    query_token
}

/// The outcome of authenticating an admin request. `token_found` says
/// whether the request carried a token at all; `decoded` holds its claims
/// when the token's signature and expiry checked out. A verified token
/// whose claims do not say `admin: true` is no admin credential.
pub fn admin_auth_decision(token_found: bool, decoded: Option<AdminClaims>) -> (res: Result<AdminAuth, AppError>)
    ensures
        !token_found ==> fails_with(res, ErrorKind::Unauthorized, "Unauthorised"@),
        token_found && decoded is None ==> fails_with(
            res,
            ErrorKind::Unauthorized,
            "Invalid or expired token"@,
        ),
        token_found && decoded is Some && !decoded->0.admin ==> fails_with(
            res,
            ErrorKind::Unauthorized,
            "Not an admin token"@,
        ),
        token_found && decoded is Some && decoded->0.admin ==> (res matches Ok(a) && a.0
            == decoded->0),
        res matches Ok(a) ==> a.0.admin,
{
    if !token_found {
        return Err(AppError::new(ErrorKind::Unauthorized, "Unauthorised"));
    }
    match decoded {
        Some(c) => {
            if c.admin {
                Ok(AdminAuth(c))
            } else {
                Err(AppError::new(ErrorKind::Unauthorized, "Not an admin token"))
            }
        },
        None => Err(AppError::new(ErrorKind::Unauthorized, "Invalid or expired token")),
    }
}

/// Names the claims `(admin, exp)` that `jsonwebtoken::decode` reads from
/// `token` under `secret` (HS256, an `exp` claim required, the expiry check
/// left to the caller): `None` when the signature, the header's algorithm or
/// the claims do not check out.
pub uninterp spec fn hs256_claims(token: Seq<char>, secret: Seq<char>) -> Option<(bool, nat)>;

/// The admin claims a token carries under `secret`, signature checked and
/// expiry not yet: `None` when `hs256_claims` has none, or when its `exp`
/// does not fit the claim's integer.
pub open spec fn token_claims(token: Seq<char>, secret: Seq<char>) -> Option<AdminClaims> {
    match hs256_claims(token, secret) {
        Some((admin, exp)) => if exp <= usize::MAX {
            Some(AdminClaims { admin, exp: exp as usize })
        } else {
            None
        },
        None => None,
    }
}

/// `jsonwebtoken::decode` of an HS256 token under `secret`, with `exp`
/// required and the expiry check switched off, read into admin claims. The
/// contract claims that the outcome is the named claims of exactly this
/// token and secret, and that a token `jsonwebtoken::encode` made of the
/// claims `{admin, exp}` under the same secret decodes to those claims (its
/// source signs and checks with the same HMAC key, and an `aud`, `iss` or
/// `sub` claim is never written).
#[verifier::external_body]
fn decode_admin_jwt(token: &str, secret: &str) -> (res: Option<AdminClaims>)
    ensures
        res == match hs256_claims(token@, secret@) {
            Some((admin, exp)) => if exp <= usize::MAX {
                Some(AdminClaims { admin, exp: exp as usize })
            } else {
                None
            },
            None => None,
        },
        forall|admin: bool, exp: usize|
            #![trigger hs256_admin_jwt(admin, exp as nat, secret@)]
            token@ == hs256_admin_jwt(admin, exp as nat, secret@) ==> res == Some(
                AdminClaims { admin, exp },
            ),
{
    let mut validation = jsonwebtoken::Validation::new(jsonwebtoken::Algorithm::HS256);
    validation.set_required_spec_claims(&["exp"]);
    validation.validate_exp = false;
    let key = jsonwebtoken::DecodingKey::from_secret(secret.as_bytes());
    let data = jsonwebtoken::decode::<serde_json::Value>(token, &key, &validation).ok()?;
    let admin = data.claims.get("admin")?.as_bool()?;
    let exp = usize::try_from(data.claims.get("exp")?.as_u64()?).ok()?;
    Some(AdminClaims { admin, exp })
}

/// Seconds past its `exp` for which a token is still accepted.
pub const TOKEN_LEEWAY_SECS: u64 = 60;

/// Whether a token expiring at `exp` is still accepted at `now`.
pub open spec fn token_live(exp: nat, now: nat) -> bool {
    now <= exp + TOKEN_LEEWAY_SECS
}

/// The admin claims a presented token proves at `now`: its verified claims,
/// when it has not expired.
pub open spec fn live_claims(token: Seq<char>, secret: Seq<char>, now: nat) -> Option<AdminClaims> {
    match token_claims(token, secret) {
        Some(c) => if token_live(c.exp as nat, now) {
            Some(c)
        } else {
            None
        },
        None => None,
    }
}

/// The view of an optional header or parameter.
pub open spec fn opt_view(o: Option<&str>) -> Option<Seq<char>> {
    match o {
        Some(s) => Some(s@),
        None => None,
    }
}

/// The view of an optional owned string.
pub open spec fn opt_string_view(o: Option<String>) -> Option<Seq<char>> {
    match o {
        Some(s) => Some(s@),
        None => None,
    }
}

/// Authenticates an admin request at `now_secs` from its `Authorization`
/// header and `token` query parameter (see `presented_token`): 401
/// `Unauthorised` without a token; 401 `Invalid or expired token` when the
/// token does not verify under `secret` or expired more than
/// `TOKEN_LEEWAY_SECS` before `now_secs`; 401 `Not an admin token` when it
/// verifies without `admin: true`; otherwise its claims. In particular a
/// token made of `{admin: true, exp}` under `secret` authenticates up to
/// `exp` plus the leeway.
pub fn authenticate_admin_at(
    authorization: Option<&str>,
    query_token: Option<String>,
    secret: &str,
    now_secs: u64,
) -> (res: Result<AdminAuth, AppError>)
    ensures
        ({
            let tok = presented_token(opt_view(authorization), opt_string_view(query_token));
            &&& tok is None ==> fails_with(res, ErrorKind::Unauthorized, "Unauthorised"@)
            &&& tok is Some && live_claims(tok->0, secret@, now_secs as nat) is None
                ==> fails_with(res, ErrorKind::Unauthorized, "Invalid or expired token"@)
            &&& tok is Some && live_claims(tok->0, secret@, now_secs as nat) is Some ==> ({
                let c = live_claims(tok->0, secret@, now_secs as nat)->0;
                if c.admin {
                    res matches Ok(a) && a.0 == c
                } else {
                    fails_with(res, ErrorKind::Unauthorized, "Not an admin token"@)
                }
            })
            &&& forall|exp: usize|
                #![trigger hs256_admin_jwt(true, exp as nat, secret@)]
                tok == Some(hs256_admin_jwt(true, exp as nat, secret@)) && token_live(
                    exp as nat,
                    now_secs as nat,
                ) ==> res == Ok::<AdminAuth, AppError>(AdminAuth(AdminClaims { admin: true, exp }))
            &&& forall|admin: bool, exp: usize|
                #![trigger hs256_admin_jwt(admin, exp as nat, secret@)]
                tok == Some(hs256_admin_jwt(admin, exp as nat, secret@)) ==> token_claims(
                    tok->0,
                    secret@,
                ) == Some(AdminClaims { admin, exp }) && (!admin ==> res is Err)
        }),
{
    let token = bearer_token(authorization, query_token);
    let ghost tok = presented_token(opt_view(authorization), opt_string_view(query_token));
    let decoded = match &token {
        Some(t) => {
            let c = decode_admin_jwt(t.as_str(), secret);
            assert(forall|admin: bool, exp: usize|
                #![trigger hs256_admin_jwt(admin, exp as nat, secret@)]
                tok == Some(hs256_admin_jwt(admin, exp as nat, secret@)) ==> token_claims(
                    tok->0,
                    secret@,
                ) == Some(AdminClaims { admin, exp }));
            match c {
                Some(claims) => {
                    if (claims.exp as u64) < now_secs && now_secs - (claims.exp as u64)
                        > TOKEN_LEEWAY_SECS {
                        None
                    } else {
                        Some(claims)
                    }
                },
                None => None,
            }
        },
        None => None,
    };
    admin_auth_decision(token.is_some(), decoded)
}

/// Authenticates an admin request now (see `authenticate_admin_at`).
pub fn authenticate_admin(authorization: Option<&str>, query_token: Option<String>, secret: &str) -> (res:
    Result<AdminAuth, AppError>)
    ensures
        ({
            let tok = presented_token(opt_view(authorization), opt_string_view(query_token));
            &&& tok is None ==> fails_with(res, ErrorKind::Unauthorized, "Unauthorised"@)
            &&& tok is Some && token_claims(tok->0, secret@) is None ==> fails_with(
                res,
                ErrorKind::Unauthorized,
                "Invalid or expired token"@,
            )
            &&& res matches Ok(a) ==> a.0.admin && tok is Some && token_claims(tok->0, secret@)
                == Some(a.0)
            &&& forall|admin: bool, exp: usize|
                #![trigger hs256_admin_jwt(admin, exp as nat, secret@)]
                tok == Some(hs256_admin_jwt(admin, exp as nat, secret@)) ==> token_claims(
                    tok->0,
                    secret@,
                ) == Some(AdminClaims { admin, exp }) && (!admin ==> res is Err)
            &&& res is Err ==> (fails_with(res, ErrorKind::Unauthorized, "Unauthorised"@)
                || fails_with(res, ErrorKind::Unauthorized, "Invalid or expired token"@)
                || fails_with(res, ErrorKind::Unauthorized, "Not an admin token"@))
        }),
{
    authenticate_admin_at(authorization, query_token, secret, unix_now_secs())
}

/// The claims of an admin token issued at `now_secs`: admin, expiring seven
/// days later.
pub fn admin_claims_at(now_secs: usize) -> (res: AdminClaims)
    requires
        now_secs + ADMIN_TOKEN_TTL_SECS <= usize::MAX,
    ensures
        res.admin,
        res.exp == now_secs + ADMIN_TOKEN_TTL_SECS,
{
    AdminClaims { admin: true, exp: now_secs + ADMIN_TOKEN_TTL_SECS }
}

#[verifier::external_type_specification]
#[verifier::external_body]
pub struct ExJwtError(jsonwebtoken::errors::Error);

/// Names the HS256 JWT (header `{"typ":"JWT","alg":"HS256"}`) that carries
/// the claims `{"admin": admin, "exp": exp}`, signed with `secret`.
pub uninterp spec fn hs256_admin_jwt(admin: bool, exp: nat, secret: Seq<char>) -> Seq<char>;

/// `jsonwebtoken::encode` of the claims with an HS256 header and
/// `EncodingKey::from_secret(secret)`. The claims are handed over as a JSON
/// object with the same two fields. The contract claims that it succeeds
/// (the crate's `encode` fails only on a key of another algorithm family,
/// which `from_secret` with HS256 never is, or on claims that do not
/// serialise, which a map of a boolean and a number always does; HMAC
/// signing itself cannot fail) and that the token is the named token of
/// exactly these claims and secret.
#[verifier::external_body]
fn encode_admin_jwt(claims: AdminClaims, secret: &str) -> (res: Result<String, jsonwebtoken::errors::Error>)
    ensures
        res is Ok,
        res matches Ok(t) ==> t@ == hs256_admin_jwt(claims.admin, claims.exp as nat, secret@),
{
    let mut map = serde_json::Map::new();
    map.insert("admin".to_string(), serde_json::Value::Bool(claims.admin));
    map.insert("exp".to_string(), serde_json::Value::from(claims.exp as u64));
    jsonwebtoken::encode(
        &jsonwebtoken::Header::new(jsonwebtoken::Algorithm::HS256),
        &map,
        &jsonwebtoken::EncodingKey::from_secret(secret.as_bytes()),
    )
}

/// An admin token issued at `now_secs`.
pub fn create_admin_token_at(secret: &str, now_secs: usize) -> (res: Result<String, jsonwebtoken::errors::Error>)
    requires
        now_secs + ADMIN_TOKEN_TTL_SECS <= usize::MAX,
    ensures
        res matches Ok(t) && t@ == hs256_admin_jwt(
            true,
            (now_secs + ADMIN_TOKEN_TTL_SECS) as nat,
            secret@,
        ),
{
    let claims = admin_claims_at(now_secs);
    encode_admin_jwt(claims, secret)
}

/// An admin token issued now, valid for seven days: its claims say admin
/// and expire `ADMIN_TOKEN_TTL_SECS` after the issue time (the clock's
/// seconds, or the latest time the claim can hold if the clock reads later).
pub fn create_admin_token(secret: &str) -> (res: Result<String, jsonwebtoken::errors::Error>)
    ensures
        res matches Ok(t) && exists|exp: usize|
            #![trigger hs256_admin_jwt(true, exp as nat, secret@)]
            ADMIN_TOKEN_TTL_SECS <= exp && t@ == hs256_admin_jwt(true, exp as nat, secret@),
{
    let now = unix_now_secs();
    if now > (usize::MAX - ADMIN_TOKEN_TTL_SECS) as u64 {
        // A clock this far ahead cannot be represented in the claim.
        return create_admin_token_at(secret, usize::MAX - ADMIN_TOKEN_TTL_SECS);
    }
    create_admin_token_at(secret, now as usize)
}

// ---------------------------------------------------------------------------
// Password checks
// ---------------------------------------------------------------------------

#[verifier::external_type_specification]
#[verifier::external_body]
pub struct ExBcryptError(bcrypt::BcryptError);

/// Names what `bcrypt::verify(password, hash)` answers: `Some(matches)`, or
/// `None` when it fails (a malformed hash).
pub uninterp spec fn bcrypt_verdict(password: Seq<char>, hash: Seq<char>) -> Option<bool>;

/// `bcrypt::verify`: whether `password` hashes to `hash` under the salt and
/// cost that `hash` carries. The contract claims only that the outcome is
/// the named verdict of exactly these two strings.
#[verifier::external_body]
pub(crate) fn bcrypt_verify(password: &str, hash: &str) -> (res: Result<bool, bcrypt::BcryptError>)
    ensures
        (res is Ok) == (bcrypt_verdict(password@, hash@) is Some),
        res matches Ok(b) ==> bcrypt_verdict(password@, hash@) == Some(b),
{
    bcrypt::verify(password, hash)
}

/// `bcrypt::hash` with the given cost. Its salt is random, so the hash text
/// itself is not claimed; what is claimed is the crate's round trip: a hash
/// it returns verifies the same password (`verify` splits the hash into its
/// cost and salt and recomputes over the same password bytes, truncated the
/// same way at 72). It may fail (the OS random source, a cost out of range),
/// so success is not claimed.
#[verifier::external_body]
pub(crate) fn bcrypt_hash(password: &str, cost: u32) -> (res: Result<String, bcrypt::BcryptError>)
    ensures
        res matches Ok(h) ==> bcrypt_verdict(password@, h@) == Some(true),
{
    bcrypt::hash(password, cost)
}

/// Whether `password` matches `hash`; an unusable hash counts as no match.
pub open spec fn password_matches(password: Seq<char>, hash: Seq<char>) -> bool {
    bcrypt_verdict(password, hash) == Some(true)
}

/// `POST /api/auth/login` at `now_secs`: 400 `Password required` without a
/// password, 500 `Server misconfigured` without an admin hash, 401
/// `Wrong password` unless the password matches; otherwise an admin token.
pub fn login_at(password: Option<String>, admin_password_hash: &str, jwt_secret: &str, now_secs: usize) -> (res:
    Result<String, AppError>)
    requires
        now_secs + ADMIN_TOKEN_TTL_SECS <= usize::MAX,
    ensures
        password is None ==> fails_with(res, ErrorKind::BadRequest, "Password required"@),
        password is Some && admin_password_hash@.len() == 0 ==> fails_with(
            res,
            ErrorKind::Internal,
            "Server misconfigured"@,
        ),
        password is Some && admin_password_hash@.len() > 0 && !password_matches(
            password->0@,
            admin_password_hash@,
        ) ==> fails_with(res, ErrorKind::Unauthorized, "Wrong password"@),
        password is Some && admin_password_hash@.len() > 0 && password_matches(
            password->0@,
            admin_password_hash@,
        ) ==> (res matches Ok(t) && t@ == hs256_admin_jwt(
            true,
            (now_secs + ADMIN_TOKEN_TTL_SECS) as nat,
            jwt_secret@,
        )),
{
    let password = match password {
        Some(p) => p,
        None => return Err(AppError::new(ErrorKind::BadRequest, "Password required")),
    };
    if admin_password_hash.is_empty() {
        return Err(AppError::new(ErrorKind::Internal, "Server misconfigured"));
    }
    let valid = match bcrypt_verify(password.as_str(), admin_password_hash) {
        Ok(v) => v,
        Err(_) => return Err(AppError::new(ErrorKind::Unauthorized, "Wrong password")),
    };
    if !valid {
        return Err(AppError::new(ErrorKind::Unauthorized, "Wrong password"));
    }
    match create_admin_token_at(jwt_secret, now_secs) {
        Ok(t) => Ok(t),
        Err(_) => Err(AppError::new(ErrorKind::Internal, "Token signing failed")),
    }
}

/// `POST /api/auth/login` now.
pub fn login(password: Option<String>, admin_password_hash: &str, jwt_secret: &str) -> (res: Result<
    String,
    AppError,
>)
    ensures
        password is None ==> fails_with(res, ErrorKind::BadRequest, "Password required"@),
        password is Some && admin_password_hash@.len() == 0 ==> fails_with(
            res,
            ErrorKind::Internal,
            "Server misconfigured"@,
        ),
        password is Some && admin_password_hash@.len() > 0 && !password_matches(
            password->0@,
            admin_password_hash@,
        ) ==> fails_with(res, ErrorKind::Unauthorized, "Wrong password"@),
        password is Some && admin_password_hash@.len() > 0 && password_matches(
            password->0@,
            admin_password_hash@,
        ) ==> (res matches Ok(t) && exists|exp: usize|
            #![trigger hs256_admin_jwt(true, exp as nat, jwt_secret@)]
            ADMIN_TOKEN_TTL_SECS <= exp && t@ == hs256_admin_jwt(true, exp as nat, jwt_secret@)),
{
    let now = unix_now_secs();
    let now = if now > (usize::MAX - ADMIN_TOKEN_TTL_SECS) as u64 {
        usize::MAX - ADMIN_TOKEN_TTL_SECS
    } else {
        now as usize
    };
    login_at(password, admin_password_hash, jwt_secret, now)
}

} // verus!
