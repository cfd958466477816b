//! Startup configuration: which settings are required, their minimum
//! strength, and the defaults of the optional ones.
use vstd::prelude::*;

use crate::error::owned;
use crate::text::{chars_of, parse_u64, parse_u64_chars};

verus! {

/// The backend's configuration.
#[derive(Clone, Debug)]
pub struct AppConfig {
    pub jwt_secret: String,
    pub ome_webhook_secret: String,
    pub ome_api_url: String,
    pub ome_api_token: String,
    pub livekit_api_key: String,
    pub livekit_api_secret: String,
    pub livekit_internal_url: String,
    pub livekit_url: String,
    pub port: u16,
    pub db_path: String,
    pub data_path: String,
}

/// The environment variables the configuration is read from; `None` for
/// one that is unset (or not valid Unicode).
#[derive(Clone, Debug, Default)]
pub struct EnvVars {
    pub jwt_secret: Option<String>,
    pub admin_password: Option<String>,
    pub ome_webhook_secret: Option<String>,
    pub ome_api_url: Option<String>,
    pub ome_api_token: Option<String>,
    pub livekit_api_key: Option<String>,
    pub livekit_api_secret: Option<String>,
    pub livekit_internal_url: Option<String>,
    pub livekit_url: Option<String>,
    pub port: Option<String>,
    pub db_path: Option<String>,
    pub data_path: Option<String>,
}

/// `u16::from_str`: the syntax of `u64::from_str` with a value of at most
/// 65535.
pub open spec fn parse_u16(s: Seq<char>) -> Option<u16> {
    match parse_u64(s) {
        Some(v) if v <= 65535 => Some(v as u16),
        _ => None,
    }
}

pub open spec fn or_default(v: Option<String>, d: Seq<char>) -> Seq<char> {
    match v {
        Some(s) => s@,
        None => d,
    }
}

/// The number of bytes of the UTF-8 encoding of `c`.
pub open spec fn utf8_width(c: char) -> nat {
    if (c as u32) < 0x80 {
        1
    } else if (c as u32) < 0x800 {
        2
    } else if (c as u32) < 0x10000 {
        3
    } else {
        4
    }
}

/// The length of `s` in UTF-8 bytes (`str::len`).
pub open spec fn byte_len(s: Seq<char>) -> nat
    decreases s.len(),
{
    if s.len() == 0 {
        0
    } else {
        byte_len(s.drop_last()) + utf8_width(s.last())
    }
}

proof fn lemma_byte_len_mono(s: Seq<char>, i: int, j: int)
    requires
        0 <= i <= j <= s.len(),
    ensures
        byte_len(s.take(i)) <= byte_len(s.take(j)),
    decreases j - i,
{
    if i < j {
        lemma_byte_len_mono(s, i, j - 1);
        assert(s.take(j).drop_last() == s.take(j - 1));
    }
}

/// Whether `s` is shorter than `n` bytes in UTF-8.
fn shorter_than(s: &str, n: u64) -> (res: bool)
    requires
        n <= 1024,
    ensures
        res == (byte_len(s@) < n),
{
    let cs = chars_of(s);
    if n == 0 {
        return false;
    }
    let mut total: u64 = 0;
    let mut i: usize = 0;
    while i < cs.len()
        invariant
            i <= cs@.len(),
            total == byte_len(cs@.take(i as int)),
            total < n,
            n <= 1024,
            cs@ == s@,
        decreases cs@.len() - i,
    {
        let c = cs[i];
        let w: u64 = if (c as u32) < 0x80 {
            1
        } else if (c as u32) < 0x800 {
            2
        } else if (c as u32) < 0x10000 {
            3
        } else {
            4
        };
        assert(cs@.take(i + 1).drop_last() == cs@.take(i as int));
        assert(cs@.take(i + 1).last() == c);
        assert(w == utf8_width(c));
        total = total + w;
        i += 1;
        if total >= n {
            proof {
                lemma_byte_len_mono(cs@, i as int, cs@.len() as int);
                assert(cs@.take(cs@.len() as int) == cs@);
            }
            return false;
        }
    }
    assert(cs@.take(cs@.len() as int) == cs@);
    true
}

fn value_or(v: Option<String>, d: &str) -> (res: String)
    ensures
        res@ == or_default(v, d@),
{
    match v {
        Some(s) => s,
        None => owned(d),
    }
}

/// The message startup stops with, if the environment lacks a required
/// setting or holds a weak one, checked in this order: `JWT_SECRET` (at
/// least 32 bytes), `ADMIN_PASSWORD` (at least 12), `OME_WEBHOOK_SECRET`
/// (at least 32), `LIVEKIT_API_KEY` (set), `LIVEKIT_API_SECRET` (at least
/// 32).
pub open spec fn fatal_message(vars: EnvVars) -> Option<Seq<char>> {
    if vars.jwt_secret is None {
        Some("FATAL: JWT_SECRET must be set"@)
    } else if byte_len(vars.jwt_secret->0@) < 32 {
        Some("FATAL: JWT_SECRET must be at least 32 chars"@)
    } else if vars.admin_password is None {
        Some("FATAL: ADMIN_PASSWORD must be set"@)
    } else if byte_len(vars.admin_password->0@) < 12 {
        Some("FATAL: ADMIN_PASSWORD must be at least 12 chars"@)
    } else if vars.ome_webhook_secret is None {
        Some("FATAL: OME_WEBHOOK_SECRET must be set"@)
    } else if byte_len(vars.ome_webhook_secret->0@) < 32 {
        Some("FATAL: OME_WEBHOOK_SECRET must be at least 32 chars"@)
    } else if vars.livekit_api_key is None {
        Some("FATAL: LIVEKIT_API_KEY must be set"@)
    } else if vars.livekit_api_secret is None {
        Some("FATAL: LIVEKIT_API_SECRET must be set"@)
    } else if byte_len(vars.livekit_api_secret->0@) < 32 {
        Some("FATAL: LIVEKIT_API_SECRET must be at least 32 chars"@)
    } else {
        None
    }
}

/// `c` is the configuration that `vars` describe.
pub open spec fn configured(vars: EnvVars, c: AppConfig) -> bool {
    &&& c.jwt_secret@ == or_default(vars.jwt_secret, ""@)
    &&& c.ome_webhook_secret@ == or_default(vars.ome_webhook_secret, ""@)
    &&& c.ome_api_url@ == or_default(vars.ome_api_url, "http://stream-ome:8081/v1"@)
    &&& c.ome_api_token@ == or_default(vars.ome_api_token, ""@)
    &&& c.livekit_api_key@ == or_default(vars.livekit_api_key, ""@)
    &&& c.livekit_api_secret@ == or_default(vars.livekit_api_secret, ""@)
    &&& c.livekit_internal_url@ == or_default(vars.livekit_internal_url, "http://stream-livekit:7880"@)
    &&& c.livekit_url@ == or_default(vars.livekit_url, "ws://localhost:7880"@)
    &&& c.port == (match vars.port {
        Some(p) => match parse_u16(p@) {
            Some(v) => v,
            None => 4001u16,
        },
        None => 4001u16,
    })
    &&& c.db_path@ == or_default(vars.db_path, "/data/stream.db"@)
    &&& c.data_path@ == or_default(vars.data_path, "/data"@)
}

impl AppConfig {
    /// Builds the configuration from the environment, or the fatal message
    /// the process stops with (see `fatal_message`). Unset optional settings
    /// take their defaults; a `PORT` that is not a `u16` falls back to 4001.
    pub fn from_vars(vars: EnvVars) -> (res: Result<AppConfig, String>)
        ensures
            match res {
                Err(m) => fatal_message(vars) == Some(m@),
                Ok(c) => fatal_message(vars) is None && configured(vars, c),
            },
    {
        let jwt_secret = match vars.jwt_secret {
            Some(j) => j,
            None => return Err(owned("FATAL: JWT_SECRET must be set")),
        };
        if shorter_than(jwt_secret.as_str(), 32) {
            return Err(owned("FATAL: JWT_SECRET must be at least 32 chars"));
        }
        match &vars.admin_password {
            None => return Err(owned("FATAL: ADMIN_PASSWORD must be set")),
            Some(a) => {
                if shorter_than(a.as_str(), 12) {
                    return Err(owned("FATAL: ADMIN_PASSWORD must be at least 12 chars"));
                }
            },
        }
        let ome_webhook_secret = match vars.ome_webhook_secret {
            Some(w) => w,
            None => return Err(owned("FATAL: OME_WEBHOOK_SECRET must be set")),
        };
        if shorter_than(ome_webhook_secret.as_str(), 32) {
            return Err(owned("FATAL: OME_WEBHOOK_SECRET must be at least 32 chars"));
        }
        let livekit_api_key = match vars.livekit_api_key {
            Some(k) => k,
            None => return Err(owned("FATAL: LIVEKIT_API_KEY must be set")),
        };
        let livekit_api_secret = match vars.livekit_api_secret {
            Some(k) => k,
            None => return Err(owned("FATAL: LIVEKIT_API_SECRET must be set")),
        };
        if shorter_than(livekit_api_secret.as_str(), 32) {
            return Err(owned("FATAL: LIVEKIT_API_SECRET must be at least 32 chars"));
        }
        let port: u16 = match &vars.port {
            Some(p) => {
                let pc = chars_of(p.as_str());
                match parse_u64_chars(&pc) {
                    Some(v) => if v <= 65535 {
                        v as u16
                    } else {
                        4001
                    },
                    None => 4001,
                }
            },
            None => 4001,
        };
        Ok(
            AppConfig {
                jwt_secret,
                ome_webhook_secret,
                ome_api_url: value_or(vars.ome_api_url, "http://stream-ome:8081/v1"),
                ome_api_token: value_or(vars.ome_api_token, ""),
                livekit_api_key,
                livekit_api_secret,
                livekit_internal_url: value_or(vars.livekit_internal_url, "http://stream-livekit:7880"),
                livekit_url: value_or(vars.livekit_url, "ws://localhost:7880"),
                port,
                db_path: value_or(vars.db_path, "/data/stream.db"),
                data_path: value_or(vars.data_path, "/data"),
            },
        )
    }
}

} // verus!
