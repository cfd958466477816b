//! Character-level text handling shared by the parsers of this crate:
//! whitespace, line and word splitting, trimming and unsigned decimal
//! parsing, each stated as a spec function over `Seq<char>` and implemented
//! by a loop proved against it.
use vstd::prelude::*;

verus! {

// ---------------------------------------------------------------------------
// Character classes
// ---------------------------------------------------------------------------

/// `char::is_whitespace`: the Unicode `White_Space` property.
pub open spec fn is_ws(c: char) -> bool {
    ||| ('\u{9}' <= c && c <= '\u{d}')
    ||| c == ' '
    ||| c == '\u{85}'
    ||| c == '\u{a0}'
    ||| c == '\u{1680}'
    ||| ('\u{2000}' <= c && c <= '\u{200a}')
    ||| c == '\u{2028}'
    ||| c == '\u{2029}'
    ||| c == '\u{202f}'
    ||| c == '\u{205f}'
    ||| c == '\u{3000}'
}

/// `char::is_ascii_digit`.
pub open spec fn is_digit(c: char) -> bool {
    '0' <= c && c <= '9'
}

/// `char::is_ascii_alphanumeric`.
pub open spec fn is_ascii_alnum(c: char) -> bool {
    ||| ('0' <= c && c <= '9')
    ||| ('a' <= c && c <= 'z')
    ||| ('A' <= c && c <= 'Z')
}

pub fn is_ws_char(c: char) -> (b: bool)
    ensures
        b == is_ws(c),
{
    ('\u{9}' <= c && c <= '\u{d}') || c == ' ' || c == '\u{85}' || c == '\u{a0}' || c
        == '\u{1680}' || ('\u{2000}' <= c && c <= '\u{200a}') || c == '\u{2028}' || c
        == '\u{2029}' || c == '\u{202f}' || c == '\u{205f}' || c == '\u{3000}'
}

pub fn is_ascii_alnum_char(c: char) -> (b: bool)
    ensures
        b == is_ascii_alnum(c),
{
    ('0' <= c && c <= '9') || ('a' <= c && c <= 'z') || ('A' <= c && c <= 'Z')
}

// ---------------------------------------------------------------------------
// Conversions between strings and character vectors
// ---------------------------------------------------------------------------

/// Appends one character to a string (std `String::push`).
#[verifier::external_body]
pub(crate) fn push_char(s: &mut String, c: char)
    ensures
        final(s)@ == old(s)@.push(c),
{
    s.push(c);
}

/// The characters of a string slice, in order.
pub fn chars_of(s: &str) -> (res: Vec<char>)
    ensures
        res@ == s@,
{
    let mut res: Vec<char> = Vec::new();
    for c in it: s.chars()
        invariant
            res@ == it.seq().take(it.index() as int),
    {
        res.push(c);
    }
    res
}

/// A string holding exactly the given characters.
pub fn string_of(cs: &Vec<char>) -> (res: String)
    ensures
        res@ == cs@,
{
    let mut res = String::new();
    for i in 0..cs.len()
        invariant
            res@ == cs@.take(i as int),
    {
        push_char(&mut res, cs[i]);
    }
    res
}

/// A string holding the characters `cs[from..to]`.
pub fn string_of_range(cs: &Vec<char>, from: usize, to: usize) -> (res: String)
    requires
        from <= to <= cs@.len(),
    ensures
        res@ == cs@.subrange(from as int, to as int),
{
    let mut res = String::new();
    let mut i = from;
    while i < to
        invariant
            from <= i <= to <= cs@.len(),
            res@ == cs@.subrange(from as int, i as int),
        decreases to - i,
    {
        push_char(&mut res, cs[i]);
        i += 1;
    }
    res
}

/// The characters `cs[from..to]` as a vector of their own.
pub fn sub_chars(cs: &Vec<char>, from: usize, to: usize) -> (res: Vec<char>)
    requires
        from <= to <= cs@.len(),
    ensures
        res@ == cs@.subrange(from as int, to as int),
{
    let mut res: Vec<char> = Vec::new();
    let mut i = from;
    while i < to
        invariant
            from <= i <= to <= cs@.len(),
            res@ == cs@.subrange(from as int, i as int),
        decreases to - i,
    {
        res.push(cs[i]);
        i += 1;
    }
    res
}

/// Appends the characters of `t` to `s`.
pub fn append_chars(s: &mut String, t: &Vec<char>)
    ensures
        final(s)@ == old(s)@ + t@,
{
    for i in 0..t.len()
        invariant
            s@ == old(s)@ + t@.take(i as int),
    {
        push_char(s, t[i]);
        assert(t@.take(i + 1) == t@.take(i as int).push(t@[i as int]));
    }
    assert(t@.take(t@.len() as int) == t@);
}

/// Appends the characters of `t` to `s`.
pub fn append_str(s: &mut String, t: &str)
    ensures
        final(s)@ == old(s)@ + t@,
{
    let cs = chars_of(t);
    append_chars(s, &cs);
}

/// Whether two character sequences are equal.
pub fn chars_eq(a: &Vec<char>, b: &Vec<char>) -> (res: bool)
    ensures
        res == (a@ == b@),
{
    if a.len() != b.len() {
        return false;
    }
    for i in 0..a.len()
        invariant
            a@.len() == b@.len(),
            forall|j: int| 0 <= j < i ==> a@[j] == b@[j],
    {
        if a[i] != b[i] {
            return false;
        }
    }
    assert(a@ =~= b@);
    true
}

/// Whether `a` equals the string `b`.
pub fn chars_eq_str(a: &Vec<char>, b: &str) -> (res: bool)
    ensures
        res == (a@ == b@),
{
    let bc = chars_of(b);
    chars_eq(a, &bc)
}

/// Whether two strings are equal.
pub fn str_eq(a: &str, b: &str) -> (res: bool)
    ensures
        res == (a@ == b@),
{
    let ac = chars_of(a);
    let bc = chars_of(b);
    chars_eq(&ac, &bc)
}

// ---------------------------------------------------------------------------
// Prefixes
// ---------------------------------------------------------------------------

pub open spec fn starts_with(s: Seq<char>, p: Seq<char>) -> bool {
    p.len() <= s.len() && s.take(p.len() as int) == p
}

pub fn starts_with_chars(s: &Vec<char>, p: &Vec<char>) -> (res: bool)
    ensures
        res == starts_with(s@, p@),
{
    if p.len() > s.len() {
        return false;
    }
    for i in 0..p.len()
        invariant
            p@.len() <= s@.len(),
            forall|j: int| 0 <= j < i ==> s@[j] == p@[j],
    {
        if s[i] != p[i] {
            assert(s@.take(p@.len() as int)[i as int] != p@[i as int]);
            return false;
        }
    }
    assert(s@.take(p@.len() as int) =~= p@);
    true
}

/// Whether `s` starts with the string `p`.
pub fn starts_with_str(s: &Vec<char>, p: &str) -> (res: bool)
    ensures
        res == starts_with(s@, p@),
{
    let pc = chars_of(p);
    starts_with_chars(s, &pc)
}

// ---------------------------------------------------------------------------
// Searching
// ---------------------------------------------------------------------------

/// The index of the first occurrence of `c` in `s`, if any.
pub open spec fn first_index_of(s: Seq<char>, c: char) -> Option<int>
    decreases s.len(),
{
    if s.len() == 0 {
        None
    } else if s[0] == c {
        Some(0)
    } else {
        match first_index_of(s.drop_first(), c) {
            Some(i) => Some(i + 1),
            None => None,
        }
    }
}

pub proof fn lemma_first_index_of(s: Seq<char>, c: char)
    ensures
        first_index_of(s, c) matches Some(i) ==> 0 <= i < s.len() && s[i] == c && forall|
            j: int,
        | 0 <= j < i ==> s[j] != c,
        first_index_of(s, c) is None ==> forall|j: int| 0 <= j < s.len() ==> s[j] != c,
    decreases s.len(),
{
    if s.len() > 0 && s[0] != c {
        lemma_first_index_of(s.drop_first(), c);
        if let Some(i) = first_index_of(s.drop_first(), c) {
            assert forall|j: int| 0 <= j < i + 1 implies s[j] != c by {
                if j > 0 {
                    assert(s[j] == s.drop_first()[j - 1]);
                }
            }
        } else {
            assert forall|j: int| 0 <= j < s.len() implies s[j] != c by {
                if j > 0 {
                    assert(s[j] == s.drop_first()[j - 1]);
                }
            }
        }
    }
}

pub fn find_char(s: &Vec<char>, c: char) -> (res: Option<usize>)
    ensures
        match res {
            Some(i) => first_index_of(s@, c) == Some(i as int),
            None => first_index_of(s@, c) is None,
        },
{
    proof {
        lemma_first_index_of(s@, c);
    }
    for i in 0..s.len()
        invariant
            forall|j: int| 0 <= j < i ==> s@[j] != c,
            first_index_of(s@, c) matches Some(k) ==> 0 <= k < s@.len() && s@[k] == c && forall|
                j: int,
            | 0 <= j < k ==> s@[j] != c,
            first_index_of(s@, c) is None ==> forall|j: int| 0 <= j < s@.len() ==> s@[j] != c,
    {
        if s[i] == c {
            return Some(i);
        }
    }
    None
}

// ---------------------------------------------------------------------------
// Splitting on a separator character
// ---------------------------------------------------------------------------

/// The pieces of `s` between occurrences of `sep` (`str::split` with a char
/// pattern): always at least one piece.
pub open spec fn split_on(s: Seq<char>, sep: char) -> Seq<Seq<char>>
    decreases s.len(),
{
    if s.len() == 0 {
        seq![Seq::<char>::empty()]
    } else {
        let prev = split_on(s.drop_last(), sep);
        if s.last() == sep {
            prev.push(Seq::<char>::empty())
        } else {
            prev.update(prev.len() - 1, prev.last().push(s.last()))
        }
    }
}

pub proof fn lemma_split_on_len(s: Seq<char>, sep: char)
    ensures
        split_on(s, sep).len() >= 1,
    decreases s.len(),
{
    if s.len() > 0 {
        lemma_split_on_len(s.drop_last(), sep);
    }
}

/// A line without the `'\r'` that ends it, if it has one.
pub open spec fn strip_cr(l: Seq<char>) -> Seq<char> {
    if l.len() > 0 && l.last() == '\r' {
        l.drop_last()
    } else {
        l
    }
}

/// `str::lines`: the pieces between `'\n'`s, a `"\r\n"` ending counting as
/// one line ending, and no empty last line after a final `'\n'`.
pub open spec fn lines(s: Seq<char>) -> Seq<Seq<char>> {
    let p = split_on(s, '\n');
    let init = p.drop_last().map_values(|l: Seq<char>| strip_cr(l));
    if p.last().len() == 0 {
        init
    } else {
        init.push(p.last())
    }
}

/// `s[x.0..x.1]` is a well-formed range of `s` holding exactly `p`.
pub open spec fn range_holds(s: Seq<char>, x: (usize, usize), p: Seq<char>) -> bool {
    x.0 <= x.1 <= s.len() && s.subrange(x.0 as int, x.1 as int) == p
}

/// `r` lists, in order, one range of `s` for each of `pieces`.
pub open spec fn ranges_match(s: Seq<char>, r: Seq<(usize, usize)>, pieces: Seq<Seq<char>>) -> bool {
    &&& r.len() == pieces.len()
    &&& forall|k: int| 0 <= k < r.len() ==> #[trigger] range_holds(s, r[k], pieces[k])
}

pub proof fn lemma_ranges_push(
    s: Seq<char>,
    r: Seq<(usize, usize)>,
    pieces: Seq<Seq<char>>,
    x: (usize, usize),
    p: Seq<char>,
)
    requires
        ranges_match(s, r, pieces),
        x.0 <= x.1 <= s.len(),
        s.subrange(x.0 as int, x.1 as int) == p,
    ensures
        ranges_match(s, r.push(x), pieces.push(p)),
{
    assert forall|k: int| 0 <= k < r.len() + 1 implies #[trigger] range_holds(
        s,
        r.push(x)[k],
        pieces.push(p)[k],
    ) by {
        if k < r.len() {
            assert(range_holds(s, r[k], pieces[k]));
            assert(r.push(x)[k] == r[k]);
            assert(pieces.push(p)[k] == pieces[k]);
        } else {
            assert(r.push(x)[k] == x);
            assert(pieces.push(p)[k] == p);
        }
    }
}

pub fn line_ranges(s: &Vec<char>) -> (res: Vec<(usize, usize)>)
    ensures
        ranges_match(s@, res@, lines(s@)),
{
    let mut done: Vec<(usize, usize)> = Vec::new();
    let mut start: usize = 0;
    let ghost mut pieces: Seq<Seq<char>> = seq![Seq::<char>::empty()];
    let mut i: usize = 0;
    while i < s.len()
        invariant
            0 <= start <= i <= s@.len(),
            pieces == split_on(s@.take(i as int), '\n'),
            pieces.len() == done@.len() + 1,
            pieces.last() == s@.subrange(start as int, i as int),
            ranges_match(s@, done@, pieces.drop_last().map_values(|l: Seq<char>| strip_cr(l))),
        decreases s@.len() - i,
    {
        let c = s[i];
        assert(s@.take(i + 1).drop_last() == s@.take(i as int));
        assert(s@.take(i + 1).last() == c);
        if c == '\n' {
            let end = if i > start && s[i - 1] == '\r' {
                i - 1
            } else {
                i
            };
            proof {
                let old_pieces = pieces;
                pieces = pieces.push(Seq::<char>::empty());
                assert(pieces.drop_last() == old_pieces);
                let m = old_pieces.map_values(|l: Seq<char>| strip_cr(l));
                assert(s@.subrange(start as int, end as int) == strip_cr(old_pieces.last()));
                assert(m =~= old_pieces.drop_last().map_values(|l: Seq<char>| strip_cr(l)).push(
                    strip_cr(old_pieces.last()),
                ));
                lemma_ranges_push(
                    s@,
                    done@,
                    old_pieces.drop_last().map_values(|l: Seq<char>| strip_cr(l)),
                    (start, end),
                    strip_cr(old_pieces.last()),
                );
            }
            done.push((start, end));
            start = i + 1;
        } else {
            proof {
                let old_pieces = pieces;
                pieces = pieces.update(pieces.len() - 1, pieces.last().push(c));
                assert(pieces.drop_last() == old_pieces.drop_last());
                assert(pieces.last() == s@.subrange(start as int, i + 1));
            }
        }
        i += 1;
    }
    assert(s@.take(s@.len() as int) == s@);
    if start < s.len() {
        proof {
            let m = pieces.drop_last().map_values(|l: Seq<char>| strip_cr(l));
            lemma_ranges_push(s@, done@, m, (start, s.len()), pieces.last());
        }
        done.push((start, s.len()));
    }
    done
}

// ---------------------------------------------------------------------------
// Words separated by whitespace
// ---------------------------------------------------------------------------

/// `str::split_whitespace`: the maximal runs of non-whitespace characters.
pub open spec fn words(s: Seq<char>) -> Seq<Seq<char>>
    decreases s.len(),
{
    if s.len() == 0 {
        Seq::<Seq<char>>::empty()
    } else {
        let w = words(s.drop_last());
        let c = s.last();
        if is_ws(c) {
            w
        } else if s.len() >= 2 && !is_ws(s[s.len() - 2]) {
            w.update(w.len() - 1, w.last().push(c))
        } else {
            w.push(seq![c])
        }
    }
}

pub proof fn lemma_words_nonempty(s: Seq<char>)
    requires
        s.len() > 0,
        !is_ws(s.last()),
    ensures
        words(s).len() > 0,
    decreases s.len(),
{
    if s.len() >= 2 && !is_ws(s[s.len() - 2]) {
        lemma_words_nonempty(s.drop_last());
    }
}

pub fn word_ranges(s: &Vec<char>) -> (res: Vec<(usize, usize)>)
    ensures
        ranges_match(s@, res@, words(s@)),
{
    let mut done: Vec<(usize, usize)> = Vec::new();
    let mut start: usize = 0;
    let mut in_word = false;
    let mut i: usize = 0;
    while i < s.len()
        invariant
            0 <= start <= i <= s@.len(),
            in_word <==> (i > 0 && !is_ws(s@[i - 1])),
            in_word ==> start < i,
            in_word ==> words(s@.take(i as int)).len() == done@.len() + 1 && ranges_match(
                s@,
                done@,
                words(s@.take(i as int)).drop_last(),
            ) && words(s@.take(i as int)).last() == s@.subrange(start as int, i as int),
            !in_word ==> ranges_match(s@, done@, words(s@.take(i as int))),
        decreases s@.len() - i,
    {
        let c = s[i];
        let ghost t = s@.take(i + 1);
        assert(t.drop_last() == s@.take(i as int));
        assert(t.last() == c);
        if is_ws_char(c) {
            if in_word {
                proof {
                    let w = words(s@.take(i as int));
                    assert(w.drop_last().push(w.last()) == w);
                    lemma_ranges_push(s@, done@, w.drop_last(), (start, i), w.last());
                }
                done.push((start, i));
                in_word = false;
            }
        } else {
            if in_word {
                assert(t[t.len() - 2] == s@[i - 1]);
                proof {
                    let w = words(s@.take(i as int));
                    let w2 = words(t);
                    assert(w2 == w.update(w.len() - 1, w.last().push(c)));
                    assert(w2.drop_last() == w.drop_last());
                    assert(w2.last() == s@.subrange(start as int, i + 1));
                }
            } else {
                proof {
                    if i > 0 {
                        assert(t[t.len() - 2] == s@[i - 1]);
                    }
                    let w = words(s@.take(i as int));
                    let w2 = words(t);
                    assert(w2 == w.push(seq![c]));
                    assert(w2.drop_last() == w);
                    assert(w2.last() == s@.subrange(i as int, i + 1));
                }
                start = i;
                in_word = true;
            }
        }
        i += 1;
    }
    assert(s@.take(s@.len() as int) == s@);
    if in_word {
        proof {
            let w = words(s@);
            assert(w.drop_last().push(w.last()) == w);
            lemma_ranges_push(s@, done@, w.drop_last(), (start, s.len()), w.last());
        }
        done.push((start, s.len()));
    }
    done
}

// ---------------------------------------------------------------------------
// Trimming
// ---------------------------------------------------------------------------

/// The number of leading whitespace characters of `s`.
pub open spec fn leading_ws(s: Seq<char>) -> nat
    decreases s.len(),
{
    if s.len() > 0 && is_ws(s[0]) {
        1 + leading_ws(s.drop_first())
    } else {
        0
    }
}

/// The number of trailing whitespace characters of `s`.
pub open spec fn trailing_ws(s: Seq<char>) -> nat
    decreases s.len(),
{
    if s.len() > 0 && is_ws(s.last()) {
        1 + trailing_ws(s.drop_last())
    } else {
        0
    }
}

/// `str::trim`: `s` without its leading and trailing whitespace.
pub open spec fn trim(s: Seq<char>) -> Seq<char> {
    let a = leading_ws(s);
    if a == s.len() {
        Seq::<char>::empty()
    } else {
        s.subrange(a as int, s.len() - trailing_ws(s))
    }
}

proof fn lemma_leading_ws_step(s: Seq<char>, i: int)
    requires
        0 <= i < s.len(),
        forall|j: int| 0 <= j < i ==> is_ws(s[j]),
    ensures
        is_ws(s[i]) ==> leading_ws(s) > i,
        !is_ws(s[i]) ==> leading_ws(s) == i,
    decreases i,
{
    if i > 0 {
        assert forall|j: int| 0 <= j < i - 1 implies is_ws(s.drop_first()[j]) by {
            assert(s.drop_first()[j] == s[j + 1]);
        }
        lemma_leading_ws_step(s.drop_first(), i - 1);
    }
}

proof fn lemma_leading_ws_all(s: Seq<char>)
    requires
        forall|j: int| 0 <= j < s.len() ==> is_ws(s[j]),
    ensures
        leading_ws(s) == s.len(),
    decreases s.len(),
{
    if s.len() > 0 {
        assert forall|j: int| 0 <= j < s.len() - 1 implies is_ws(s.drop_first()[j]) by {
            assert(s.drop_first()[j] == s[j + 1]);
        }
        lemma_leading_ws_all(s.drop_first());
    }
}

proof fn lemma_trailing_ws_step(s: Seq<char>, k: int)
    requires
        0 <= k < s.len(),
        forall|j: int| s.len() - k <= j < s.len() ==> is_ws(s[j]),
    ensures
        is_ws(s[s.len() - 1 - k]) ==> trailing_ws(s) > k,
        !is_ws(s[s.len() - 1 - k]) ==> trailing_ws(s) == k,
    decreases k,
{
    if k > 0 {
        let t = s.drop_last();
        assert forall|j: int| t.len() - (k - 1) <= j < t.len() implies is_ws(t[j]) by {
            assert(t[j] == s[j]);
        }
        assert(t[t.len() - 1 - (k - 1)] == s[s.len() - 1 - k]);
        lemma_trailing_ws_step(t, k - 1);
    }
}

pub fn trim_chars(s: &Vec<char>) -> (res: Vec<char>)
    ensures
        res@ == trim(s@),
{
    let n = s.len();
    let mut a: usize = 0;
    while a < n && is_ws_char(s[a])
        invariant
            0 <= a <= n == s@.len(),
            forall|j: int| 0 <= j < a ==> is_ws(s@[j]),
        decreases n - a,
    {
        a += 1;
    }
    if a == n {
        proof {
            lemma_leading_ws_all(s@);
        }
        return Vec::new();
    }
    proof {
        lemma_leading_ws_step(s@, a as int);
    }
    let mut b: usize = n;
    while b > a && is_ws_char(s[b - 1])
        invariant
            a < n == s@.len(),
            a <= b <= n,
            !is_ws(s@[a as int]),
            forall|j: int| b <= j < n ==> is_ws(s@[j]),
        decreases b,
    {
        b -= 1;
    }
    proof {
        lemma_trailing_ws_step(s@, (n - b) as int);
    }
    sub_chars(s, a, b)
}

// ---------------------------------------------------------------------------
// Ordering
// ---------------------------------------------------------------------------

/// Lexicographic order of character sequences, a proper prefix first. On
/// strings it is the order of `str`'s `<`: UTF-8 keeps code point order, so
/// comparing bytes and comparing characters agree.
pub open spec fn lex_less(a: Seq<char>, b: Seq<char>) -> bool
    decreases a.len(),
{
    if a.len() == 0 {
        b.len() > 0
    } else if b.len() == 0 {
        false
    } else if a[0] != b[0] {
        a[0] < b[0]
    } else {
        lex_less(a.drop_first(), b.drop_first())
    }
}

/// No sequence sorts before itself.
pub proof fn lemma_lex_less_irreflexive(a: Seq<char>)
    ensures
        !lex_less(a, a),
    decreases a.len(),
{
    if a.len() > 0 {
        lemma_lex_less_irreflexive(a.drop_first());
    }
}

proof fn lemma_lex_less_skip(a: Seq<char>, b: Seq<char>, i: int)
    requires
        0 <= i <= a.len(),
        i <= b.len(),
        forall|j: int| 0 <= j < i ==> a[j] == b[j],
    ensures
        lex_less(a, b) == lex_less(a.skip(i), b.skip(i)),
    decreases i,
{
    if i > 0 {
        assert(a[0] == b[0]);
        lemma_lex_less_skip(a.drop_first(), b.drop_first(), i - 1);
        assert(a.drop_first().skip(i - 1) =~= a.skip(i));
        assert(b.drop_first().skip(i - 1) =~= b.skip(i));
    } else {
        assert(a.skip(0) =~= a);
        assert(b.skip(0) =~= b);
    }
}

/// Whether `a` sorts before `b` (`a < b` on strings).
pub fn str_less(a: &str, b: &str) -> (res: bool)
    ensures
        res == lex_less(a@, b@),
{
    let ac = chars_of(a);
    let bc = chars_of(b);
    let mut i: usize = 0;
    while i < ac.len() && i < bc.len() && ac[i] == bc[i]
        invariant
            ac@ == a@,
            bc@ == b@,
            i <= ac@.len(),
            i <= bc@.len(),
            forall|j: int| 0 <= j < i ==> a@[j] == b@[j],
        decreases ac@.len() - i,
    {
        i += 1;
    }
    proof {
        lemma_lex_less_skip(a@, b@, i as int);
        if i < a@.len() && i < b@.len() {
            assert(a@.skip(i as int)[0] == a@[i as int]);
            assert(b@.skip(i as int)[0] == b@[i as int]);
        }
    }
    if i == ac.len() {
        i < bc.len()
    } else if i == bc.len() {
        false
    } else {
        ac[i] < bc[i]
    }
}

// ---------------------------------------------------------------------------
// Trailing characters
// ---------------------------------------------------------------------------

/// The number of trailing `c`s of `s`.
pub open spec fn trailing_count(s: Seq<char>, c: char) -> nat
    decreases s.len(),
{
    if s.len() > 0 && s.last() == c {
        1 + trailing_count(s.drop_last(), c)
    } else {
        0
    }
}

pub proof fn lemma_trailing_count(s: Seq<char>, c: char, k: int)
    requires
        0 <= k < s.len(),
        forall|j: int| s.len() - k <= j < s.len() ==> s[j] == c,
    ensures
        s[s.len() - 1 - k] == c ==> trailing_count(s, c) > k,
        s[s.len() - 1 - k] != c ==> trailing_count(s, c) == k,
    decreases k,
{
    if k > 0 {
        let t = s.drop_last();
        assert forall|j: int| t.len() - (k - 1) <= j < t.len() implies t[j] == c by {
            assert(t[j] == s[j]);
        }
        assert(t[t.len() - 1 - (k - 1)] == s[s.len() - 1 - k]);
        lemma_trailing_count(t, c, k - 1);
    }
}

pub proof fn lemma_trailing_count_all(s: Seq<char>, c: char)
    requires
        forall|j: int| 0 <= j < s.len() ==> s[j] == c,
    ensures
        trailing_count(s, c) == s.len(),
    decreases s.len(),
{
    if s.len() > 0 {
        lemma_trailing_count_all(s.drop_last(), c);
    }
}

/// `trailing_count` read off a scan from the end: `k` trailing `c`s, and
/// then either the start of `s` or another character.
pub proof fn lemma_trailing_count_at(s: Seq<char>, c: char, k: int)
    requires
        0 <= k <= s.len(),
        forall|j: int| s.len() - k <= j < s.len() ==> s[j] == c,
        k < s.len() ==> s[s.len() - 1 - k] != c,
    ensures
        trailing_count(s, c) == k,
{
    if k == s.len() {
        lemma_trailing_count_all(s, c);
    } else {
        lemma_trailing_count(s, c, k);
    }
}

// ---------------------------------------------------------------------------
// Unsigned decimal numbers
// ---------------------------------------------------------------------------

/// The value of a string of ASCII digits.
pub open spec fn digits_value(s: Seq<char>) -> nat
    decreases s.len(),
{
    if s.len() == 0 {
        0
    } else {
        digits_value(s.drop_last()) * 10 + ((s.last() as nat) - ('0' as nat)) as nat
    }
}

pub open spec fn all_digits(s: Seq<char>) -> bool {
    forall|i: int| 0 <= i < s.len() ==> is_digit(#[trigger] s[i])
}

/// `u64::from_str`: an optional `'+'`, then one or more ASCII digits whose
/// value fits in a `u64`.
pub open spec fn parse_u64(s: Seq<char>) -> Option<u64> {
    let d = if s.len() > 0 && s[0] == '+' {
        s.drop_first()
    } else {
        s
    };
    if d.len() > 0 && all_digits(d) && digits_value(d) <= u64::MAX {
        Some(digits_value(d) as u64)
    } else {
        None
    }
}

proof fn lemma_digits_value_mono(s: Seq<char>, i: int, j: int)
    requires
        0 <= i <= j <= s.len(),
    ensures
        digits_value(s.take(i)) <= digits_value(s.take(j)),
    decreases j - i,
{
    if i < j {
        lemma_digits_value_mono(s, i, j - 1);
        assert(s.take(j).drop_last() == s.take(j - 1));
    }
}

pub fn parse_u64_chars(s: &Vec<char>) -> (res: Option<u64>)
    ensures
        res == parse_u64(s@),
{
    let n = s.len();
    let start: usize = if n > 0 && s[0] == '+' {
        1
    } else {
        0
    };
    let ghost d = if s@.len() > 0 && s@[0] == '+' {
        s@.drop_first()
    } else {
        s@
    };
    assert(d == s@.subrange(start as int, n as int));
    if start == n {
        return None;
    }
    let mut val: u64 = 0;
    let mut i: usize = start;
    while i < n
        invariant
            start <= i <= n == s@.len(),
            start < n,
            d == s@.subrange(start as int, n as int),
            d == (if s@.len() > 0 && s@[0] == '+' {
                s@.drop_first()
            } else {
                s@
            }),
            forall|j: int| start <= j < i ==> is_digit(s@[j]),
            val as nat == digits_value(d.take(i - start)),
        decreases n - i,
    {
        let c = s[i];
        assert(d.take(i - start + 1).drop_last() == d.take(i - start));
        assert(d.take(i - start + 1).last() == c);
        assert(d[i - start] == c);
        if !('0' <= c && c <= '9') {
            assert(!is_digit(d[i - start]));
            assert(!all_digits(d));
            return None;
        }
        let digit: u64 = (c as u32 - '0' as u32) as u64;
        assert((c as nat) - ('0' as nat) == digit);
        if val > (u64::MAX - digit) / 10 {
            proof {
                assert(val * 10 + digit > u64::MAX) by (nonlinear_arith)
                    requires
                        val > (u64::MAX - digit) / 10,
                        digit <= 9,
                ;
                lemma_digits_value_mono(d, i - start + 1, d.len() as int);
                assert(d.take(d.len() as int) == d);
                assert(digits_value(d) > u64::MAX);
            }
            return None;
        }
        proof {
            assert(val * 10 + digit <= u64::MAX) by (nonlinear_arith)
                requires
                    val <= (u64::MAX - digit) / 10,
                    digit <= 9,
            ;
        }
        val = val * 10 + digit;
        i += 1;
    }
    assert(d.take(d.len() as int) == d);
    assert(all_digits(d)) by {
        assert forall|j: int| 0 <= j < d.len() implies is_digit(#[trigger] d[j]) by {
            assert(d[j] == s@[j + start]);
        }
    }
    Some(val)
}

/// Parses the characters `s[from..to]` as a `u64`.
pub fn parse_u64_range(s: &Vec<char>, from: usize, to: usize) -> (res: Option<u64>)
    requires
        from <= to <= s@.len(),
    ensures
        res == parse_u64(s@.subrange(from as int, to as int)),
{
    let w = sub_chars(s, from, to);
    parse_u64_chars(&w)
}

// ---------------------------------------------------------------------------
// Decimal rendering
// ---------------------------------------------------------------------------

pub open spec fn digit_char(d: nat) -> char
    recommends
        d < 10,
{
    (d + ('0' as nat)) as char
}

/// The decimal digits of `n`, without leading zeros (`"0"` for zero).
pub open spec fn decimal(n: nat) -> Seq<char>
    decreases n,
{
    if n < 10 {
        seq![digit_char(n)]
    } else {
        decimal(n / 10).push(digit_char(n % 10))
    }
}

/// The decimal digits of `n`, left-padded with zeros to at least `width`.
pub open spec fn decimal_padded(n: nat, width: nat) -> Seq<char> {
    let d = decimal(n);
    if d.len() >= width {
        d
    } else {
        Seq::new((width - d.len()) as nat, |i: int| '0') + d
    }
}

pub proof fn lemma_decimal_len(n: nat)
    ensures
        decimal(n).len() >= 1,
        n < 10 ==> decimal(n).len() == 1,
        10 <= n < 100 ==> decimal(n).len() == 2,
        100 <= n < 1000 ==> decimal(n).len() == 3,
        1000 <= n < 10000 ==> decimal(n).len() == 4,
    decreases n,
{
    if n >= 10 {
        lemma_decimal_len(n / 10);
    }
}

/// Appends the decimal digits of `n` to `out`.
pub fn push_decimal(out: &mut String, n: u64)
    ensures
        final(out)@ == old(out)@ + decimal(n as nat),
    decreases n,
{
    if n >= 10 {
        push_decimal(out, n / 10);
    }
    let d = (n % 10) as u8;
    let ch = (48u8 + d) as char;
    assert(ch == digit_char((n % 10) as nat));
    push_char(out, ch);
}

/// Appends the decimal digits of `n`, zero-padded to `width`, to `out`.
pub fn push_decimal_padded(out: &mut String, n: u64, width: usize)
    ensures
        final(out)@ == old(out)@ + decimal_padded(n as nat, width as nat),
{
    let mut digits = String::new();
    push_decimal(&mut digits, n);
    let dc = chars_of(digits.as_str());
    let len = dc.len();
    if len < width {
        let mut k: usize = 0;
        let ghost base = out@;
        while k < width - len
            invariant
                len < width,
                k <= width - len,
                out@ == base + Seq::new(k as nat, |i: int| '0'),
            decreases width - len - k,
        {
            push_char(out, '0');
            assert(Seq::new((k + 1) as nat, |i: int| '0') =~= Seq::new(k as nat, |i: int| '0').push(
                '0',
            ));
            k += 1;
        }
        append_chars(out, &dc);
        assert(base + Seq::new((width - len) as nat, |i: int| '0') + decimal(n as nat) =~= base + (
        Seq::new((width - len) as nat, |i: int| '0') + decimal(n as nat)));
    } else {
        append_chars(out, &dc);
    }
}

} // verus!

verus! {

/// The index of the last occurrence of `c` in `s`, if any.
pub open spec fn last_index_of(s: Seq<char>, c: char) -> Option<int>
    decreases s.len(),
{
    if s.len() == 0 {
        None
    } else if s.last() == c {
        Some(s.len() - 1)
    } else {
        last_index_of(s.drop_last(), c)
    }
}

pub proof fn lemma_last_index_of(s: Seq<char>, c: char)
    ensures
        last_index_of(s, c) matches Some(i) ==> 0 <= i < s.len() && s[i] == c && forall|j: int|
            i < j < s.len() ==> s[j] != c,
        last_index_of(s, c) is None ==> forall|j: int| 0 <= j < s.len() ==> s[j] != c,
    decreases s.len(),
{
    if s.len() > 0 && s.last() != c {
        lemma_last_index_of(s.drop_last(), c);
        assert forall|j: int| 0 <= j < s.len() - 1 implies s[j] == s.drop_last()[j] by {}
    }
}

pub fn rfind_char(s: &Vec<char>, c: char) -> (res: Option<usize>)
    ensures
        match res {
            Some(i) => last_index_of(s@, c) == Some(i as int),
            None => last_index_of(s@, c) is None,
        },
{
    let mut i = s.len();
    assert(s@.take(i as int) == s@);
    while i > 0
        invariant
            i <= s@.len(),
            last_index_of(s@, c) == last_index_of(s@.take(i as int), c),
        decreases i,
    {
        assert(s@.take(i as int).drop_last() == s@.take(i - 1));
        if s[i - 1] == c {
            return Some(i - 1);
        }
        i -= 1;
    }
    None
}

} // verus!
