//! LiveKit access grants: what a participant's conference token allows.
//! Every grant names the participant's role; a grant without one cannot be
//! made, so no token is ever signed without it.
use vstd::prelude::*;

use crate::error::owned;
use crate::time::secs_of_millis;

verus! {

/// How long a conference token stays valid: six hours.
pub const LIVEKIT_TOKEN_TTL_SECS: u64 = 21600;

/// The grant carried by a LiveKit access token: issued by the API key to
/// one participant (identity and display name) for one room, with their
/// role as metadata, valid from `not_before` until `expires` (seconds since
/// the Unix epoch). Joining, publishing and subscribing are always granted.
#[derive(Clone, Debug)]
pub struct LiveKitGrant {
    pub issuer: String,
    pub identity: String,
    pub name: String,
    pub room: String,
    pub role: String,
    pub not_before: u64,
    pub expires: u64,
}

/// The grant for a participant joining at `now_secs`: refused (`Err`) when
/// the role is empty; otherwise issued by `api_key` for the participant in
/// `room`, valid from now for six hours.
pub fn livekit_grant_at(
    api_key: &str,
    identity: &str,
    name: &str,
    room: &str,
    role: &str,
    now_secs: u64,
) -> (res: Result<LiveKitGrant, String>)
    requires
        now_secs + LIVEKIT_TOKEN_TTL_SECS <= u64::MAX,
    ensures
        role@.len() == 0 <==> res is Err,
        res matches Ok(g) ==> g.issuer@ == api_key@ && g.identity@ == identity@ && g.name@ == name@
            && g.room@ == room@ && g.role@ == role@ && g.not_before == now_secs && g.expires
            == now_secs + LIVEKIT_TOKEN_TTL_SECS,
{
    if role.is_empty() {
        return Err(owned("role must not be empty"));
    }
    Ok(
        LiveKitGrant {
            issuer: owned(api_key),
            identity: owned(identity),
            name: owned(name),
            room: owned(room),
            role: owned(role),
            not_before: now_secs,
            expires: now_secs + LIVEKIT_TOKEN_TTL_SECS,
        },
    )
}

/// The grant for a participant joining now (see `livekit_grant_at`).
pub fn livekit_grant(api_key: &str, identity: &str, name: &str, room: &str, role: &str) -> (res:
    Result<LiveKitGrant, String>)
    ensures
        role@.len() == 0 <==> res is Err,
        res matches Ok(g) ==> g.issuer@ == api_key@ && g.identity@ == identity@ && g.name@ == name@
            && g.room@ == room@ && g.role@ == role@ && g.expires == g.not_before
            + LIVEKIT_TOKEN_TTL_SECS,
        res matches Ok(g) ==> exists|ms: u64|
            #[trigger] secs_of_millis(ms) == g.not_before || (secs_of_millis(ms) > u64::MAX
                - LIVEKIT_TOKEN_TTL_SECS && g.not_before == u64::MAX - LIVEKIT_TOKEN_TTL_SECS),
{
    let now = crate::time::unix_now_secs();
    let now = if now > u64::MAX - LIVEKIT_TOKEN_TTL_SECS {
        u64::MAX - LIVEKIT_TOKEN_TTL_SECS
    } else {
        now
    };
    livekit_grant_at(api_key, identity, name, room, role, now)
}

} // verus!
