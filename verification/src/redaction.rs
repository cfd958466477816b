//! What request logs may show of a URI: the secrets a query string can carry
//! (`token`, `presenter_key`, `password`) are replaced before the URI reaches
//! the tracing span; the path and every other parameter stay as they are.
use vstd::prelude::*;

use crate::error::owned;
use crate::text::{
    append_chars, append_str, chars_eq_str, chars_of, find_char, first_index_of, lemma_first_index_of,
    lemma_split_on_len, push_char, split_on, sub_chars,
};

verus! {

/// What a redacted value reads as.
pub const REDACTED: &'static str = "[REDACTED]";

/// The query parameters whose values never reach the logs.
pub open spec fn is_secret_key(k: Seq<char>) -> bool {
    k == "token"@ || k == "presenter_key"@ || k == "password"@
}

/// One `key=value` pair of a query string, its value replaced when its key
/// is a secret one. A pair without `=` has no value to hide.
pub open spec fn redact_pair(p: Seq<char>) -> Seq<char> {
    match first_index_of(p, '=') {
        Some(i) => if is_secret_key(p.take(i)) {
            p.take(i + 1) + REDACTED@
        } else {
            p
        },
        None => p,
    }
}

/// The pieces joined with `&` between them.
pub open spec fn join_amp(parts: Seq<Seq<char>>) -> Seq<char>
    decreases parts.len(),
{
    if parts.len() == 0 {
        Seq::<char>::empty()
    } else if parts.len() == 1 {
        parts[0]
    } else {
        join_amp(parts.drop_last()) + seq!['&'] + parts.last()
    }
}

/// The URI as it is logged: unchanged without a query; otherwise the path,
/// `?`, and the query's `&`-separated pairs, each redacted (see
/// `redact_pair`), in their order.
pub open spec fn redacted_uri(uri: Seq<char>) -> Seq<char> {
    match first_index_of(uri, '?') {
        Some(q) => uri.take(q + 1) + join_amp(
            split_on(uri.skip(q + 1), '&').map_values(|p: Seq<char>| redact_pair(p)),
        ),
        None => uri,
    }
}

/// `p` with its value redacted when its key is a secret one.
fn redact_piece(p: &Vec<char>) -> (res: Vec<char>)
    ensures
        res@ == redact_pair(p@),
{
    proof {
        lemma_first_index_of(p@, '=');
        reveal_strlit("[REDACTED]");
    }
    match find_char(p, '=') {
        Some(e) => {
            let n = p.len();
            assert(e < n);
            let key = sub_chars(p, 0, e);
            assert(key@ =~= p@.take(e as int));
            if chars_eq_str(&key, "token") || chars_eq_str(&key, "presenter_key") || chars_eq_str(
                &key,
                "password",
            ) {
                let mut out = sub_chars(p, 0, e + 1);
                assert(out@ =~= p@.take(e + 1));
                let r = chars_of(REDACTED);
                let mut k: usize = 0;
                let ghost start = out@;
                while k < r.len()
                    invariant
                        k <= r@.len(),
                        r@ == REDACTED@,
                        out@ == start + r@.take(k as int),
                    decreases r@.len() - k,
                {
                    out.push(r[k]);
                    assert(r@.take(k + 1) == r@.take(k as int).push(r@[k as int]));
                    k += 1;
                }
                assert(r@.take(r@.len() as int) == r@);
                out
            } else {
                proof {
                    reveal_strlit("token");
                    reveal_strlit("presenter_key");
                    reveal_strlit("password");
                }
                p.clone()
            }
        },
        None => p.clone(),
    }
}

/// The URI of a request as its log line shows it (see `redacted_uri`).
pub fn redact_uri(uri: &str) -> (res: String)
    ensures
        res@ == redacted_uri(uri@),
{
    let cs = chars_of(uri);
    proof {
        lemma_first_index_of(cs@, '?');
    }
    let q = match find_char(&cs, '?') {
        Some(q) => q,
        None => return owned(uri),
    };
    let mut out = String::new();
    let head = sub_chars(&cs, 0, q + 1);
    append_chars(&mut out, &head);
    let query = sub_chars(&cs, q + 1, cs.len());
    assert(query@ =~= cs@.skip(q + 1));
    let ghost prefix = cs@.take(q + 1);
    assert(head@ =~= prefix);
    let ghost mut pieces: Seq<Seq<char>> = seq![Seq::<char>::empty()];
    let mut start: usize = 0;
    let mut i: usize = 0;
    assert(query@.take(0) =~= Seq::<char>::empty());
    while i < query.len()
        invariant
            0 <= start <= i <= query@.len(),
            pieces == split_on(query@.take(i as int), '&'),
            pieces.len() >= 1,
            pieces.last() == query@.subrange(start as int, i as int),
            out@ == prefix + join_amp(
                pieces.drop_last().map_values(|p: Seq<char>| redact_pair(p)),
            ) + (if pieces.len() > 1 {
                seq!['&']
            } else {
                Seq::<char>::empty()
            }),
        decreases query@.len() - i,
    {
        let c = query[i];
        assert(query@.take(i + 1).drop_last() == query@.take(i as int));
        assert(query@.take(i + 1).last() == c);
        if c == '&' {
            let seg = sub_chars(&query, start, i);
            let red = redact_piece(&seg);
            let ghost before = out@;
            append_chars(&mut out, &red);
            push_char(&mut out, '&');
            proof {
                let old_pieces = pieces;
                let done = old_pieces.drop_last();
                let f = |p: Seq<char>| redact_pair(p);
                let m_old = done.map_values(f);
                let m_new = old_pieces.map_values(f);
                assert(m_new =~= m_old.push(redact_pair(old_pieces.last())));
                assert(m_new.drop_last() =~= m_old);
                if done.len() == 0 {
                    assert(m_new.len() == 1);
                    assert(join_amp(m_new) == m_new[0]);
                } else {
                    assert(join_amp(m_new) == join_amp(m_old) + seq!['&'] + m_new.last());
                }
                pieces = old_pieces.push(Seq::<char>::empty());
                assert(pieces.drop_last() == old_pieces);
                assert(out@ =~= prefix + join_amp(m_new) + seq!['&']);
            }
            start = i + 1;
        } else {
            proof {
                let old_pieces = pieces;
                pieces = old_pieces.update(old_pieces.len() - 1, old_pieces.last().push(c));
                assert(pieces.drop_last() =~= old_pieces.drop_last());
                assert(pieces.last() =~= query@.subrange(start as int, i + 1));
            }
        }
        i += 1;
    }
    assert(query@.take(query@.len() as int) =~= query@);
    let seg = sub_chars(&query, start, query.len());
    let red = redact_piece(&seg);
    append_chars(&mut out, &red);
    proof {
        lemma_split_on_len(query@, '&');
        let done = pieces.drop_last();
        let f = |p: Seq<char>| redact_pair(p);
        let m_old = done.map_values(f);
        let m_new = pieces.map_values(f);
        assert(pieces =~= done.push(pieces.last()));
        assert(m_new =~= m_old.push(redact_pair(pieces.last())));
        assert(m_new.drop_last() =~= m_old);
        if done.len() == 0 {
            assert(join_amp(m_new) == m_new[0]);
        } else {
            assert(join_amp(m_new) == join_amp(m_old) + seq!['&'] + m_new.last());
        }
        assert(out@ =~= prefix + join_amp(m_new));
    }
    out
}

} // verus!
