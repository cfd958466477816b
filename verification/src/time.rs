//! Wall-clock time: the clock itself, and UTC timestamps in SQLite's
//! `CURRENT_TIMESTAMP` format (`YYYY-MM-DD HH:MM:SS`), which compare as
//! strings in time order.
use vstd::prelude::*;

use crate::text::{decimal, decimal_padded, digit_char, lemma_lex_less_irreflexive, lex_less, push_char, push_decimal_padded};

verus! {

/// The current time in milliseconds since the Unix epoch (zero if the clock
/// reads earlier). Nothing is claimed of the value: it is the clock's.
#[verifier::external_body]
pub(crate) fn unix_now_millis() -> u64 {
    std::time::SystemTime::now().duration_since(std::time::UNIX_EPOCH).unwrap_or_default().as_millis() as u64
}

/// The whole seconds of a reading in milliseconds.
pub open spec fn secs_of_millis(ms: u64) -> u64 {
    ms / 1000
}

/// The current time in whole seconds since the Unix epoch: the clock's
/// millisecond reading, divided by 1000 and rounded down.
pub fn unix_now_secs() -> (res: u64)
    ensures
        exists|ms: u64| #[trigger] secs_of_millis(ms) == res,
{
    let ms = unix_now_millis();
    assert(secs_of_millis(ms) == ms / 1000);
    ms / 1000
}

// ---------------------------------------------------------------------------
// The Gregorian calendar
// ---------------------------------------------------------------------------

/// Gregorian leap years: divisible by 4, except centuries not divisible by
/// 400.
pub open spec fn is_leap_year(y: int) -> bool {
    (y % 4 == 0 && y % 100 != 0) || y % 400 == 0
}

pub open spec fn days_in_year(y: int) -> int {
    if is_leap_year(y) {
        366
    } else {
        365
    }
}

/// The length of month `m` (0 for January) of year `y`.
pub open spec fn days_in_month(y: int, m: int) -> int {
    if m == 1 {
        if is_leap_year(y) {
            29
        } else {
            28
        }
    } else if m == 3 || m == 5 || m == 8 || m == 10 {
        30
    } else {
        31
    }
}

/// Counting `d` days forward from the first of January of year `y`: the
/// year reached and the day within it (0 for the first of January).
pub open spec fn year_and_day(y: int, d: int) -> (int, int)
    decreases d,
{
    if d < days_in_year(y) {
        (y, d)
    } else {
        year_and_day(y + 1, d - days_in_year(y))
    }
}

/// Counting `d` days forward from the first of month `m` of year `y`: the
/// month reached and the day within it (0 for the first).
pub open spec fn month_and_day(y: int, m: int, d: int) -> (int, int)
    decreases 12 - m,
{
    if m >= 11 || d < days_in_month(y, m) {
        (m, d)
    } else {
        month_and_day(y, m + 1, d - days_in_month(y, m))
    }
}

/// The UTC civil time `secs` seconds after the Unix epoch:
/// (year, month 1-12, day 1-31, hour, minute, second).
pub open spec fn civil_time(secs: nat) -> (int, int, int, int, int, int) {
    let days = (secs / 86400) as int;
    let tod = (secs % 86400) as int;
    let (y, yd) = year_and_day(1970, days);
    let (m, md) = month_and_day(y, 0, yd);
    (y, m + 1, md + 1, tod / 3600, (tod % 3600) / 60, tod % 60)
}

/// `secs` seconds after the Unix epoch, written `YYYY-MM-DD HH:MM:SS` (UTC).
pub open spec fn timestamp_text(secs: nat) -> Seq<char> {
    let (y, mo, d, h, mi, s) = civil_time(secs);
    decimal_padded(y as nat, 4) + seq!['-'] + decimal_padded(mo as nat, 2) + seq!['-']
        + decimal_padded(d as nat, 2) + seq![' '] + decimal_padded(h as nat, 2) + seq![':']
        + decimal_padded(mi as nat, 2) + seq![':'] + decimal_padded(s as nat, 2)
}

/// Whether `y` is a Gregorian leap year.
#[verifier::spinoff_prover]
pub fn is_leap(y: i64) -> (res: bool)
    ensures
        res == is_leap_year(y as int),
{
    (y % 4 == 0 && y % 100 != 0) || y % 400 == 0
}

/// The UTC timestamp `secs` seconds after the Unix epoch, as SQLite writes
/// `CURRENT_TIMESTAMP`.
pub fn utc_timestamp(secs: u64) -> (res: String)
    ensures
        res@ == timestamp_text(secs as nat),
{
    let days = secs / 86400;
    let time_of_day = secs % 86400;
    let hours = time_of_day / 3600;
    let minutes = (time_of_day % 3600) / 60;
    let seconds = time_of_day % 60;

    assert(days < 0x1_0000_0000_0000);
    let mut y: i64 = 1970;
    let mut remaining: i64 = days as i64;
    let mut done = false;
    while !done
        invariant
            1970 <= y,
            0 <= remaining <= days,
            y - 1970 <= days - remaining,
            days < 0x1_0000_0000_0000,
            !done ==> year_and_day(1970, days as int) == year_and_day(y as int, remaining as int),
            done ==> year_and_day(1970, days as int) == (y as int, remaining as int),
        decreases remaining + (if done { 0int } else { 1int }),
    {
        let diy: i64 = if is_leap(y) { 366 } else { 365 };
        if remaining < diy {
            done = true;
        } else {
            remaining = remaining - diy;
            y = y + 1;
        }
    }

    let leap = is_leap(y);
    let mut m: i64 = 0;
    let mut searching = true;
    while searching && m < 11
        invariant
            0 <= m <= 11,
            0 <= remaining < 0x1_0000_0000_0000,
            leap == is_leap_year(y as int),
            searching ==> month_and_day(y as int, 0, year_and_day(1970, days as int).1)
                == month_and_day(y as int, m as int, remaining as int),
            !searching ==> month_and_day(y as int, 0, year_and_day(1970, days as int).1) == (
            m as int,
            remaining as int,
            ),
        decreases 11 - m + (if searching { 1int } else { 0int }),
    {
        let md: i64 = if m == 1 {
            if leap { 29 } else { 28 }
        } else if m == 3 || m == 5 || m == 8 || m == 10 {
            30
        } else {
            31
        };
        if remaining < md {
            searching = false;
        } else {
            remaining = remaining - md;
            m = m + 1;
        }
    }
    assert(month_and_day(y as int, 0, year_and_day(1970, days as int).1) == (
    m as int,
    remaining as int,
    ));

    let mut out = String::new();
    push_decimal_padded(&mut out, y as u64, 4);
    push_char(&mut out, '-');
    push_decimal_padded(&mut out, (m + 1) as u64, 2);
    push_char(&mut out, '-');
    push_decimal_padded(&mut out, (remaining + 1) as u64, 2);
    push_char(&mut out, ' ');
    push_decimal_padded(&mut out, hours, 2);
    push_char(&mut out, ':');
    push_decimal_padded(&mut out, minutes, 2);
    push_char(&mut out, ':');
    push_decimal_padded(&mut out, seconds, 2);
    out
}

/// The current UTC time as SQLite writes `CURRENT_TIMESTAMP`.
pub fn chrono_now() -> (res: String)
    ensures
        exists|secs: u64| res@ == timestamp_text(secs as nat),
{
    let secs = unix_now_secs();
    utc_timestamp(secs)
}


// ---------------------------------------------------------------------------
// Timestamps sort in time order
// ---------------------------------------------------------------------------

/// Comparing two concatenations whose first parts have equal lengths: the
/// first parts decide, unless they are equal.
proof fn lemma_lex_concat(x: Seq<char>, y: Seq<char>, x2: Seq<char>, y2: Seq<char>)
    requires
        x.len() == x2.len(),
    ensures
        lex_less(x + y, x2 + y2) == if x == x2 {
            lex_less(y, y2)
        } else {
            lex_less(x, x2)
        },
    decreases x.len(),
{
    if x.len() == 0 {
        assert(x + y =~= y);
        assert(x2 + y2 =~= y2);
        assert(x =~= x2);
    } else {
        assert((x + y)[0] == x[0]);
        assert((x2 + y2)[0] == x2[0]);
        assert((x + y).drop_first() =~= x.drop_first() + y);
        assert((x2 + y2).drop_first() =~= x2.drop_first() + y2);
        if x[0] == x2[0] {
            lemma_lex_concat(x.drop_first(), y, x2.drop_first(), y2);
            if x.drop_first() == x2.drop_first() {
                assert(x =~= x2) by {
                    assert forall|i: int| 0 <= i < x.len() implies x[i] == x2[i] by {
                        if i > 0 {
                            assert(x[i] == x.drop_first()[i - 1]);
                            assert(x2[i] == x2.drop_first()[i - 1]);
                        }
                    }
                }
            } else {
                assert(x != x2);
            }
        } else {
            assert(x != x2);
        }
    }
}

proof fn lemma_digit_order(a: nat, b: nat)
    requires
        a < 10,
        b < 10,
    ensures
        (digit_char(a) < digit_char(b)) == (a < b),
        (digit_char(a) == digit_char(b)) == (a == b),
{
}

/// Two digits, tens first.
pub open spec fn two_digits(n: nat) -> Seq<char> {
    seq![digit_char(n / 10), digit_char(n % 10)]
}

proof fn lemma_padded2(n: nat)
    requires
        n < 100,
    ensures
        decimal_padded(n, 2) == two_digits(n),
{
    if n < 10 {
        assert(decimal(n) == seq![digit_char(n)]);
        assert(decimal_padded(n, 2) =~= seq!['0', digit_char(n)]);
        assert(digit_char(0) == '0');
    } else {
        assert(decimal(n / 10) == seq![digit_char(n / 10)]);
        assert(decimal(n) =~= seq![digit_char(n / 10), digit_char(n % 10)]);
    }
}

/// Four digits, thousands first.
pub open spec fn four_digits(n: nat) -> Seq<char> {
    seq![digit_char(n / 1000), digit_char((n / 100) % 10), digit_char((n / 10) % 10), digit_char(n % 10)]
}

proof fn lemma_padded4(n: nat)
    requires
        1000 <= n < 10000,
    ensures
        decimal_padded(n, 4) == four_digits(n),
{
    let a = n / 1000;
    let b = n / 100;
    let c = n / 10;
    assert(b / 10 == a);
    assert(c / 10 == b);
    assert(decimal(a) == seq![digit_char(a)]);
    assert(decimal(b) =~= seq![digit_char(a), digit_char(b % 10)]);
    assert(decimal(c) =~= seq![digit_char(a), digit_char(b % 10), digit_char(c % 10)]);
    assert(decimal(n) =~= four_digits(n));
}

proof fn lemma_two_digits_order(m: nat, n: nat)
    requires
        m < n < 100,
    ensures
        lex_less(two_digits(m), two_digits(n)),
        two_digits(m) != two_digits(n),
{
    lemma_digit_order(m / 10, n / 10);
    lemma_digit_order(m % 10, n % 10);
    assert(two_digits(m) =~= seq![digit_char(m / 10)] + seq![digit_char(m % 10)]);
    assert(two_digits(n) =~= seq![digit_char(n / 10)] + seq![digit_char(n % 10)]);
    lemma_lex_concat(seq![digit_char(m / 10)], seq![digit_char(m % 10)], seq![digit_char(n / 10)], seq![digit_char(n % 10)]);
    if m / 10 == n / 10 {
        assert(seq![digit_char(m / 10)] =~= seq![digit_char(n / 10)]);
        lemma_lex_concat(seq![digit_char(m % 10)], Seq::<char>::empty(), seq![digit_char(n % 10)], Seq::<char>::empty());
        assert(seq![digit_char(m % 10)] + Seq::<char>::empty() =~= seq![digit_char(m % 10)]);
        assert(seq![digit_char(n % 10)] + Seq::<char>::empty() =~= seq![digit_char(n % 10)]);
        assert(seq![digit_char(m % 10)].drop_first() =~= Seq::<char>::empty());
        assert(seq![digit_char(n % 10)].drop_first() =~= Seq::<char>::empty());
    } else {
        assert(seq![digit_char(m / 10)][0] != seq![digit_char(n / 10)][0]);
        assert(seq![digit_char(m / 10)] != seq![digit_char(n / 10)]);
    }
    assert(two_digits(m)[1] == digit_char(m % 10));
    assert(two_digits(m)[0] == digit_char(m / 10));
    assert(two_digits(n)[1] == digit_char(n % 10));
    assert(two_digits(n)[0] == digit_char(n / 10));
}


proof fn lemma_four_split(n: nat)
    requires
        1000 <= n < 10000,
    ensures
        four_digits(n) == two_digits(n / 100) + two_digits(n % 100),
{
    assert((n % 100) / 10 == (n / 10) % 10) by (nonlinear_arith)
        requires
            n >= 0,
    ;
    assert((n / 100) / 10 == n / 1000) by (nonlinear_arith)
        requires
            n >= 0,
    ;
    assert((n % 100) % 10 == n % 10) by (nonlinear_arith)
        requires
            n >= 0,
    ;
    assert(four_digits(n) =~= two_digits(n / 100) + two_digits(n % 100));
}

/// Extending equal-length prefixes by equal-length suffixes: a difference
/// in the prefixes decides, equal prefixes leave it to the suffixes.
proof fn lemma_step(p1: Seq<char>, p2: Seq<char>, s1: Seq<char>, s2: Seq<char>)
    requires
        p1.len() == p2.len(),
        s1.len() == s2.len(),
    ensures
        p1 != p2 && lex_less(p1, p2) ==> p1 + s1 != p2 + s2 && lex_less(p1 + s1, p2 + s2),
        p1 == p2 ==> ((p1 + s1 == p2 + s2) == (s1 == s2)) && lex_less(p1 + s1, p2 + s2) == lex_less(
            s1,
            s2,
        ),
{
    lemma_lex_concat(p1, s1, p2, s2);
    if p1 != p2 {
        assert((p1 + s1).take(p1.len() as int) =~= p1);
        assert((p2 + s2).take(p2.len() as int) =~= p2);
    } else {
        assert((p1 + s1).skip(p1.len() as int) =~= s1);
        assert((p2 + s2).skip(p2.len() as int) =~= s2);
        if s1 == s2 {
            assert(p1 + s1 =~= p2 + s2);
        }
    }
}

proof fn lemma_four_digits_order(m: nat, n: nat)
    requires
        1000 <= m < n < 10000,
    ensures
        lex_less(four_digits(m), four_digits(n)),
        four_digits(m) != four_digits(n),
{
    lemma_four_split(m);
    lemma_four_split(n);
    lemma_step(two_digits(m / 100), two_digits(n / 100), two_digits(m % 100), two_digits(n % 100));
    if m / 100 == n / 100 {
        lemma_two_digits_order(m % 100, n % 100);
    } else {
        lemma_two_digits_order(m / 100, n / 100);
    }
}

proof fn lemma_year_and_day_bounds(y: int, d: int)
    requires
        d >= 0,
    ensures
        year_and_day(y, d).0 >= y,
        d >= days_in_year(y) ==> year_and_day(y, d).0 > y,
        0 <= year_and_day(y, d).1 < days_in_year(year_and_day(y, d).0),
    decreases d,
{
    if d >= days_in_year(y) {
        lemma_year_and_day_bounds(y + 1, d - days_in_year(y));
    }
}

proof fn lemma_year_and_day_order(y: int, d1: int, d2: int)
    requires
        0 <= d1 < d2,
    ensures
        year_and_day(y, d1).0 < year_and_day(y, d2).0 || (year_and_day(y, d1).0 == year_and_day(y, d2).0
            && year_and_day(y, d1).1 < year_and_day(y, d2).1),
    decreases d2,
{
    let n = days_in_year(y);
    if d2 >= n {
        if d1 >= n {
            lemma_year_and_day_order(y + 1, d1 - n, d2 - n);
        } else {
            lemma_year_and_day_bounds(y, d2);
        }
    }
}

proof fn lemma_month_and_day_bounds(y: int, m: int, d: int)
    requires
        0 <= m <= 11,
        d >= 0,
    ensures
        m <= month_and_day(y, m, d).0 <= 11,
        0 <= month_and_day(y, m, d).1,
        m < 11 && d >= days_in_month(y, m) ==> month_and_day(y, m, d).0 > m,
    decreases 12 - m,
{
    if m < 11 && d >= days_in_month(y, m) {
        lemma_month_and_day_bounds(y, m + 1, d - days_in_month(y, m));
    }
}

proof fn lemma_month_and_day_order(y: int, m: int, d1: int, d2: int)
    requires
        0 <= m <= 11,
        0 <= d1 < d2,
    ensures
        month_and_day(y, m, d1).0 < month_and_day(y, m, d2).0 || (month_and_day(y, m, d1).0
            == month_and_day(y, m, d2).0 && month_and_day(y, m, d1).1 < month_and_day(y, m, d2).1),
    decreases 12 - m,
{
    let n = days_in_month(y, m);
    if m < 11 && d2 >= n {
        if d1 >= n {
            lemma_month_and_day_order(y, m + 1, d1 - n, d2 - n);
        } else {
            lemma_month_and_day_bounds(y, m, d2);
        }
    }
}

/// The days of year `y` from the first of month `m` to its end.
spec fn days_from(y: int, m: int) -> int
    decreases 12 - m,
{
    if m >= 12 {
        0
    } else {
        days_in_month(y, m) + days_from(y, m + 1)
    }
}

proof fn lemma_days_from_year(y: int)
    ensures
        days_from(y, 0) == days_in_year(y),
{
    reveal_with_fuel(days_from, 13);
}

proof fn lemma_month_day_small(y: int, m: int, d: int)
    requires
        0 <= m <= 11,
        0 <= d < days_from(y, m),
    ensures
        month_and_day(y, m, d).1 < 31,
    decreases 12 - m,
{
    if m < 11 && d >= days_in_month(y, m) {
        lemma_month_day_small(y, m + 1, d - days_in_month(y, m));
    } else if m == 11 {
        reveal_with_fuel(days_from, 2);
    }
}

/// The text of a timestamp with the given fields, each at its fixed width.
pub open spec fn timestamp_fields(y: nat, mo: nat, d: nat, h: nat, mi: nat, s: nat) -> Seq<char> {
    four_digits(y) + seq!['-'] + two_digits(mo) + seq!['-'] + two_digits(d) + seq![' '] + two_digits(h)
        + seq![':'] + two_digits(mi) + seq![':'] + two_digits(s)
}

proof fn lemma_civil_bounds(secs: nat)
    ensures
        ({
            let (y, mo, d, h, mi, s) = civil_time(secs);
            &&& 1970 <= y
            &&& 1 <= mo <= 12
            &&& 1 <= d <= 31
            &&& 0 <= h < 24
            &&& 0 <= mi < 60
            &&& 0 <= s < 60
        }),
{
    let days = (secs / 86400) as int;
    lemma_year_and_day_bounds(1970, days);
    let (y, yd) = year_and_day(1970, days);
    lemma_days_from_year(y);
    lemma_month_and_day_bounds(y, 0, yd);
    lemma_month_day_small(y, 0, yd);
}

proof fn lemma_timestamp_fields(secs: nat)
    requires
        civil_time(secs).0 < 10000,
    ensures
        ({
            let (y, mo, d, h, mi, s) = civil_time(secs);
            timestamp_text(secs) == timestamp_fields(
                y as nat,
                mo as nat,
                d as nat,
                h as nat,
                mi as nat,
                s as nat,
            )
        }),
{
    lemma_civil_bounds(secs);
    let (y, mo, d, h, mi, s) = civil_time(secs);
    lemma_padded4(y as nat);
    lemma_padded2(mo as nat);
    lemma_padded2(d as nat);
    lemma_padded2(h as nat);
    lemma_padded2(mi as nat);
    lemma_padded2(s as nat);
}


/// `(y1, .., s1)` comes before `(y2, .., s2)` field by field.
pub open spec fn fields_before(
    y1: nat, mo1: nat, d1: nat, h1: nat, mi1: nat, s1: nat,
    y2: nat, mo2: nat, d2: nat, h2: nat, mi2: nat, s2: nat,
) -> bool {
    y1 < y2 || (y1 == y2 && (mo1 < mo2 || (mo1 == mo2 && (d1 < d2 || (d1 == d2 && (h1 < h2 || (
    h1 == h2 && (mi1 < mi2 || (mi1 == mi2 && s1 < s2)))))))))
}

proof fn lemma_two_step(p1: Seq<char>, p2: Seq<char>, x1: nat, x2: nat)
    requires
        p1.len() == p2.len(),
        x1 < 100,
        x2 < 100,
        p1 == p2 ==> x1 <= x2,
        p1 == p2 || (p1 != p2 && lex_less(p1, p2)),
    ensures
        p1 + two_digits(x1) == p2 + two_digits(x2) || (p1 + two_digits(x1) != p2 + two_digits(x2)
            && lex_less(p1 + two_digits(x1), p2 + two_digits(x2))),
        p1 + two_digits(x1) == p2 + two_digits(x2) ==> p1 == p2 && x1 == x2,
{
    if x1 < x2 {
        lemma_two_digits_order(x1, x2);
    }
    lemma_step(p1, p2, two_digits(x1), two_digits(x2));
}

proof fn lemma_sep_step(p1: Seq<char>, p2: Seq<char>, c: char)
    requires
        p1.len() == p2.len(),
        p1 == p2 || (p1 != p2 && lex_less(p1, p2)),
    ensures
        p1 + seq![c] == p2 + seq![c] || (p1 + seq![c] != p2 + seq![c] && lex_less(p1 + seq![c], p2 + seq![c])),
        p1 + seq![c] == p2 + seq![c] ==> p1 == p2,
{
    lemma_step(p1, p2, seq![c], seq![c]);
}

proof fn lemma_fields_order(
    y1: nat, mo1: nat, d1: nat, h1: nat, mi1: nat, s1: nat,
    y2: nat, mo2: nat, d2: nat, h2: nat, mi2: nat, s2: nat,
)
    requires
        1000 <= y1 < 10000,
        1000 <= y2 < 10000,
        mo1 < 100 && d1 < 100 && h1 < 100 && mi1 < 100 && s1 < 100,
        mo2 < 100 && d2 < 100 && h2 < 100 && mi2 < 100 && s2 < 100,
        fields_before(y1, mo1, d1, h1, mi1, s1, y2, mo2, d2, h2, mi2, s2),
    ensures
        lex_less(timestamp_fields(y1, mo1, d1, h1, mi1, s1), timestamp_fields(y2, mo2, d2, h2, mi2, s2)),
{
    let a1 = four_digits(y1);
    let a2 = four_digits(y2);
    if y1 < y2 {
        lemma_four_digits_order(y1, y2);
    }
    lemma_sep_step(a1, a2, '-');
    let b1 = a1 + seq!['-'];
    let b2 = a2 + seq!['-'];
    lemma_two_step(b1, b2, mo1, mo2);
    let c1 = b1 + two_digits(mo1);
    let c2 = b2 + two_digits(mo2);
    lemma_sep_step(c1, c2, '-');
    let e1 = c1 + seq!['-'];
    let e2 = c2 + seq!['-'];
    lemma_two_step(e1, e2, d1, d2);
    let f1 = e1 + two_digits(d1);
    let f2 = e2 + two_digits(d2);
    lemma_sep_step(f1, f2, ' ');
    let g1 = f1 + seq![' '];
    let g2 = f2 + seq![' '];
    lemma_two_step(g1, g2, h1, h2);
    let i1 = g1 + two_digits(h1);
    let i2 = g2 + two_digits(h2);
    lemma_sep_step(i1, i2, ':');
    let j1 = i1 + seq![':'];
    let j2 = i2 + seq![':'];
    lemma_two_step(j1, j2, mi1, mi2);
    let k1 = j1 + two_digits(mi1);
    let k2 = j2 + two_digits(mi2);
    lemma_sep_step(k1, k2, ':');
    let l1 = k1 + seq![':'];
    let l2 = k2 + seq![':'];
    lemma_two_step(l1, l2, s1, s2);
}

proof fn lemma_time_of_day_order(t1: int, t2: int)
    requires
        0 <= t1 < t2 < 86400,
    ensures
        t1 / 3600 < t2 / 3600 || (t1 / 3600 == t2 / 3600 && ((t1 % 3600) / 60 < (t2 % 3600) / 60 || (
        (t1 % 3600) / 60 == (t2 % 3600) / 60 && t1 % 60 < t2 % 60))),
{
    assert(t1 % 60 == (t1 % 3600) % 60) by (nonlinear_arith)
        requires
            t1 >= 0,
    ;
    assert(t2 % 60 == (t2 % 3600) % 60) by (nonlinear_arith)
        requires
            t2 >= 0,
    ;
}

/// The days of the years from `y0` up to, not including, `y`.
pub open spec fn days_between(y0: int, y: int) -> int
    decreases y - y0,
{
    if y <= y0 {
        0
    } else {
        days_in_year(y0) + days_between(y0 + 1, y)
    }
}

/// The leap years among the years 1 to `n`.
spec fn leaps(n: int) -> int {
    n / 4 - n / 100 + n / 400
}

proof fn lemma_leaps_step(n: int)
    requires
        n >= 1,
    ensures
        leaps(n) - leaps(n - 1) == (if is_leap_year(n) {
            1int
        } else {
            0int
        }),
{
    assert(n / 4 - (n - 1) / 4 == (if n % 4 == 0 { 1int } else { 0int })) by (nonlinear_arith)
        requires
            n >= 1,
    ;
    assert(n / 100 - (n - 1) / 100 == (if n % 100 == 0 { 1int } else { 0int })) by (nonlinear_arith)
        requires
            n >= 1,
    ;
    assert(n / 400 - (n - 1) / 400 == (if n % 400 == 0 { 1int } else { 0int })) by (nonlinear_arith)
        requires
            n >= 1,
    ;
    assert(n % 400 == 0 ==> n % 100 == 0 && n % 4 == 0) by (nonlinear_arith);
    assert(n % 100 == 0 ==> n % 4 == 0) by (nonlinear_arith);
}

/// The days between two years in closed form.
proof fn lemma_days_between_closed(y0: int, y: int)
    requires
        1 <= y0 <= y,
    ensures
        days_between(y0, y) == 365 * (y - y0) + leaps(y - 1) - leaps(y0 - 1),
    decreases y - y0,
{
    if y0 < y {
        lemma_days_between_closed(y0 + 1, y);
        lemma_leaps_step(y0);
    }
}

/// Counting fewer days than lie between `y0` and `y` from the first of
/// January of `y0` stays before year `y`.
proof fn lemma_year_before(y0: int, d: int, y: int)
    requires
        0 <= d < days_between(y0, y),
    ensures
        year_and_day(y0, d).0 < y,
    decreases d,
{
    if d >= days_in_year(y0) {
        lemma_year_before(y0 + 1, d - days_in_year(y0), y);
    }
}

/// The first second of the year 10000: `10000-01-01 00:00:00` UTC.
pub const YEAR_10000_SECS: u64 = 253402300800;

/// A time before `YEAR_10000_SECS` has a four-digit year.
pub proof fn lemma_year_below_10000(secs: nat)
    requires
        secs < YEAR_10000_SECS,
    ensures
        civil_time(secs).0 < 10000,
{
    lemma_days_between_closed(1970, 10000);
    assert(days_between(1970, 10000) == 2932897);
    let days = (secs / 86400) as int;
    assert(days < 2932897) by (nonlinear_arith)
        requires
            secs < 253402300800,
            days == secs / 86400,
    ;
    lemma_year_before(1970, days, 10000);
}

/// The order law on the bound callers have: of two times before the year
/// 10000, the earlier writes a smaller timestamp, a time never writes a
/// larger one than a later time, and equal timestamps are the same second.
pub proof fn lemma_timestamp_order_secs(a: nat, b: nat)
    requires
        a <= b < YEAR_10000_SECS,
    ensures
        a < b ==> lex_less(timestamp_text(a), timestamp_text(b)),
        (timestamp_text(a) == timestamp_text(b)) <==> a == b,
{
    lemma_year_below_10000(a);
    lemma_year_below_10000(b);
    if a < b {
        lemma_timestamp_order(a, b);
    }
    lemma_timestamp_text_injective(a, b);
}

/// Two times write the same timestamp exactly when they are the same
/// second, as long as both years keep four digits: with
/// `lemma_timestamp_order`, comparing timestamps as strings is comparing
/// the times they write.
pub proof fn lemma_timestamp_text_injective(a: nat, b: nat)
    requires
        civil_time(a).0 < 10000,
        civil_time(b).0 < 10000,
    ensures
        (timestamp_text(a) == timestamp_text(b)) <==> a == b,
{
    if a < b {
        lemma_timestamp_order(a, b);
        lemma_lex_less_irreflexive(timestamp_text(a));
    } else if b < a {
        lemma_timestamp_order(b, a);
        lemma_lex_less_irreflexive(timestamp_text(b));
    }
}

/// Timestamps sort as the times they write: the text of an earlier time is
/// lexicographically smaller than that of a later one, as long as the year
/// keeps four digits. This is what lets stored datetimes be compared with
/// the current time as strings.
pub proof fn lemma_timestamp_order(a: nat, b: nat)
    requires
        a < b,
        civil_time(b).0 < 10000,
    ensures
        lex_less(timestamp_text(a), timestamp_text(b)),
{
    lemma_civil_bounds(a);
    lemma_civil_bounds(b);
    let da = (a / 86400) as int;
    let db = (b / 86400) as int;
    let ta = (a % 86400) as int;
    let tb = (b % 86400) as int;
    assert(da < db || (da == db && ta < tb)) by (nonlinear_arith)
        requires
            a < b,
            da == a / 86400,
            db == b / 86400,
            ta == a % 86400,
            tb == b % 86400,
    ;
    let (y1, yd1) = year_and_day(1970, da);
    let (y2, yd2) = year_and_day(1970, db);
    lemma_year_and_day_bounds(1970, da);
    lemma_year_and_day_bounds(1970, db);
    if da < db {
        lemma_year_and_day_order(1970, da, db);
        if y1 == y2 {
            lemma_month_and_day_order(y1, 0, yd1, yd2);
        }
    } else {
        lemma_time_of_day_order(ta, tb);
    }
    let (cy1, cmo1, cd1, ch1, cmi1, cs1) = civil_time(a);
    let (cy2, cmo2, cd2, ch2, cmi2, cs2) = civil_time(b);
    lemma_timestamp_fields(a);
    lemma_timestamp_fields(b);
    lemma_fields_order(
        cy1 as nat,
        cmo1 as nat,
        cd1 as nat,
        ch1 as nat,
        cmi1 as nat,
        cs1 as nat,
        cy2 as nat,
        cmo2 as nat,
        cd2 as nat,
        ch2 as nat,
        cmi2 as nat,
        cs2 as nat,
    );
}

} // verus!
