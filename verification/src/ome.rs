//! The media server's REST API, as this backend uses it: the requests it
//! makes, which of the reported streams the admin sees, and which live rooms
//! the poller sets back to pending.
use vstd::prelude::*;

use crate::crypto::{base64, base64_standard};
use crate::error::owned;
use crate::text::{append_str, starts_with, starts_with_str, chars_of, str_eq};

verus! {

/// The streams of the application the admin pages list.
pub const ADMIN_STREAMS_PATH: &'static str = "/vhosts/default/apps/app/streams";

/// The streams of the application ingest goes to, which the poller checks.
pub const LIVE_STREAMS_PATH: &'static str = "/vhosts/default/apps/live/streams";

/// The `Authorization` header of an API request: HTTP Basic with the
/// access token, base64-encoded.
pub fn basic_authorization(token: &str) -> (res: String)
    ensures
        res@ == "Basic "@ + base64(vstd::utf8::encode_utf8(token@), false, true),
{
    let mut res = owned("Basic ");
    let encoded = base64_standard(token.as_bytes());
    append_str(&mut res, encoded.as_str());
    res
}

/// An API URL: the configured base, then the path.
pub fn api_url(base: &str, path: &str) -> (res: String)
    ensures
        res@ == base@ + path@,
{
    let mut res = owned(base);
    append_str(&mut res, path);
    res
}

/// The path of one stream of the admin application.
pub fn stream_path(stream_key: &str) -> (res: String)
    ensures
        res@ == ADMIN_STREAMS_PATH@ + "/"@ + stream_key@,
{
    let mut res = owned(ADMIN_STREAMS_PATH);
    append_str(&mut res, "/");
    append_str(&mut res, stream_key);
    res
}

/// The streams the status page lists: the named ones, except the
/// conference streams (`conf-...`).
pub open spec fn listed(names: Seq<Option<String>>) -> Seq<Seq<char>>
    decreases names.len(),
{
    if names.len() == 0 {
        Seq::empty()
    } else {
        let prev = listed(names.drop_last());
        match names.last() {
            Some(n) => if starts_with(n@, "conf-"@) {
                prev
            } else {
                prev.push(n@)
            },
            None => prev,
        }
    }
}

/// The stream names to show, in the order reported (see `listed`).
pub fn listed_streams(names: Vec<Option<String>>) -> (res: Vec<String>)
    ensures
        res@.map_values(|s: String| s@) == listed(names@),
{
    let mut res: Vec<String> = Vec::new();
    for i in 0..names.len()
        invariant
            res@.map_values(|s: String| s@) == listed(names@.take(i as int)),
    {
        assert(names@.take(i + 1).drop_last() == names@.take(i as int));
        assert(names@.take(i + 1).last() == names@[i as int]);
        match &names[i] {
            Some(n) => {
                let nc = chars_of(n.as_str());
                if !starts_with_str(&nc, "conf-") {
                    res.push(n.clone());
                    assert(res@.map_values(|s: String| s@) =~= listed(names@.take(i as int)).push(
                        n@,
                    ));
                }
            },
            None => {},
        }
    }
    assert(names@.take(names@.len() as int) == names@);
    res
}

/// A live room and the key it streams with.
#[derive(Clone, Debug)]
pub struct LiveRoom {
    pub id: String,
    pub slug: String,
    pub key_token: String,
}

pub open spec fn broadcasting(active: Seq<String>, key: Seq<char>) -> bool {
    exists|j: int| 0 <= j < active.len() && #[trigger] active[j]@ == key
}

/// The live rooms whose key the media server no longer reports, in order.
pub open spec fn dropped(live: Seq<LiveRoom>, active: Seq<String>) -> Seq<LiveRoom>
    decreases live.len(),
{
    if live.len() == 0 {
        Seq::empty()
    } else {
        let prev = dropped(live.drop_last(), active);
        if broadcasting(active, live.last().key_token@) {
            prev
        } else {
            prev.push(live.last())
        }
    }
}

/// The poller's decision: the live rooms to set back to pending because
/// their stream dropped.
pub fn rooms_to_reset(live: Vec<LiveRoom>, active: &Vec<String>) -> (res: Vec<LiveRoom>)
    ensures
        res@ == dropped(live@, active@),
{
    let mut res: Vec<LiveRoom> = Vec::new();
    let mut rest = live;
    let ghost all = rest@;
    let mut pending: Vec<LiveRoom> = Vec::new();
    while rest.len() > 0
        invariant
            rest@.len() <= all.len(),
            rest@ == all.take(rest@.len() as int),
            pending@ == all.skip(rest@.len() as int).reverse(),
        decreases rest@.len(),
    {
        let r = rest.pop().unwrap();
        let ghost n = rest@.len();
        assert(all.skip(n as int).reverse() =~= all.skip(n as int + 1).reverse().push(all[n as int])) by {
            assert(all.skip(n as int) =~= seq![all[n as int]] + all.skip(n as int + 1));
        }
        pending.push(r);
    }
    assert(all.skip(0) =~= all);
    while pending.len() > 0
        invariant
            pending@.len() <= all.len(),
            pending@ == all.skip(all.len() - pending@.len()).reverse(),
            res@ == dropped(all.take(all.len() - pending@.len()), active@),
        decreases pending@.len(),
    {
        let r = pending.pop().unwrap();
        let ghost k = all.len() - pending@.len() - 1;
        assert(all.skip(k) =~= seq![all[k]] + all.skip(k + 1));
        assert(all.skip(k).reverse() =~= all.skip(k + 1).reverse().push(all[k]));
        assert(r == all[k]);
        assert(all.take(k + 1).drop_last() =~= all.take(k));
        assert(all.take(k + 1).last() == all[k]);
        let mut on_air = false;
        let mut j: usize = 0;
        while j < active.len()
            invariant
                j <= active@.len(),
                on_air <==> exists|t: int| 0 <= t < j && #[trigger] active@[t]@ == r.key_token@,
            decreases active@.len() - j,
        {
            if str_eq(active[j].as_str(), r.key_token.as_str()) {
                on_air = true;
            }
            j += 1;
        }
        if !on_air {
            res.push(r);
        }
    }
    assert(all.take(all.len() as int) =~= all);
    res
}

} // verus!
