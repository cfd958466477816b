//! Host metrics from the kernel's text interfaces: CPU jiffies from
//! `/proc/stat`, memory from `/proc/meminfo`, the primary network interface
//! from `/proc/net/dev`, and the integer bookkeeping between two samples.
//! The percentages and rates computed from these integers are floating point
//! and stay with the caller.
use vstd::prelude::*;

use crate::text::{
    chars_eq_str, chars_of, find_char, first_index_of, is_ws, lemma_first_index_of, line_ranges,
    lines, parse_u64, parse_u64_range, range_holds, starts_with, starts_with_str, string_of,
    sub_chars, trim, trim_chars, word_ranges, words,
};

verus! {

/// `(idle, total)` jiffies of one CPU line.
pub type CpuJiffies = (u64, u64);

// ---------------------------------------------------------------------------
// Shared pieces
// ---------------------------------------------------------------------------

/// The values of the words that parse as `u64`, in order; the others are
/// skipped.
pub open spec fn parsed_words(ws: Seq<Seq<char>>) -> Seq<u64>
    decreases ws.len(),
{
    if ws.len() == 0 {
        Seq::<u64>::empty()
    } else {
        let p = parsed_words(ws.drop_last());
        match parse_u64(ws.last()) {
            Some(v) => p.push(v),
            None => p,
        }
    }
}

/// The sum of a sequence of numbers.
pub open spec fn sum(f: Seq<u64>) -> int
    decreases f.len(),
{
    if f.len() == 0 {
        0
    } else {
        sum(f.drop_last()) + f.last()
    }
}

pub open spec fn sat(x: int) -> u64 {
    if x > u64::MAX {
        u64::MAX
    } else {
        x as u64
    }
}

proof fn lemma_sum_nonneg(f: Seq<u64>)
    ensures
        sum(f) >= 0,
    decreases f.len(),
{
    if f.len() > 0 {
        lemma_sum_nonneg(f.drop_last());
    }
}

proof fn lemma_sum_pair(f: Seq<u64>)
    requires
        f.len() >= 5,
    ensures
        f[3] + f[4] <= sum(f),
    decreases f.len(),
{
    if f.len() > 5 {
        lemma_sum_pair(f.drop_last());
        assert(f.drop_last()[3] == f[3] && f.drop_last()[4] == f[4]);
        assert(sum(f) == sum(f.drop_last()) + f.last());
    } else {
        let g = f.drop_last();
        assert(g.last() == f[3]);
        assert(g.drop_last() == f.take(3));
        lemma_sum_nonneg(f.take(3));
        assert(sum(f) == sum(g) + f[4]);
        assert(sum(g) == sum(g.drop_last()) + g.last());
    }
}

/// The numbers among the words `[from..)` of `cs`, given their ranges.
fn parse_words_from(cs: &Vec<char>, wr: &Vec<(usize, usize)>, from: usize) -> (res: Vec<u64>)
    requires
        from <= wr@.len(),
        forall|k: int| 0 <= k < wr@.len() ==> (#[trigger] wr@[k]).0 <= wr@[k].1 <= cs@.len(),
    ensures
        res@ == parsed_words(
            Seq::new((wr@.len() - from) as nat, |k: int| cs@.subrange(wr@[k + from].0 as int, wr@[k + from].1 as int)),
        ),
{
    let ghost ws = Seq::new(
        (wr@.len() - from) as nat,
        |k: int| cs@.subrange(wr@[k + from].0 as int, wr@[k + from].1 as int),
    );
    let mut res: Vec<u64> = Vec::new();
    let mut i = from;
    while i < wr.len()
        invariant
            from <= i <= wr@.len(),
            forall|k: int| 0 <= k < wr@.len() ==> (#[trigger] wr@[k]).0 <= wr@[k].1 <= cs@.len(),
            ws == Seq::new(
                (wr@.len() - from) as nat,
                |k: int| cs@.subrange(wr@[k + from].0 as int, wr@[k + from].1 as int),
            ),
            res@ == parsed_words(ws.take(i - from)),
        decreases wr@.len() - i,
    {
        let (a, b) = wr[i];
        assert(ws.take(i - from + 1).drop_last() == ws.take(i - from));
        assert(ws.take(i - from + 1).last() == cs@.subrange(a as int, b as int));
        match parse_u64_range(cs, a, b) {
            Some(v) => res.push(v),
            None => {},
        }
        i += 1;
    }
    assert(ws.take(wr@.len() - from) == ws);
    res
}

// ---------------------------------------------------------------------------
// /proc/stat
// ---------------------------------------------------------------------------

/// The number of leading lines that start with `cpu`.
pub open spec fn cpu_prefix_len(ls: Seq<Seq<char>>) -> nat
    decreases ls.len(),
{
    if ls.len() > 0 && starts_with(ls[0], "cpu"@) {
        1 + cpu_prefix_len(ls.drop_first())
    } else {
        0
    }
}

/// The numeric fields of a CPU line: its words after the label.
pub open spec fn cpu_fields(l: Seq<char>) -> Seq<u64> {
    parsed_words(words(l).drop_first())
}

/// The aggregate `(idle, total)` and the per-core ones, from CPU lines read
/// in order. Lines with fewer than five fields are skipped; idle is the
/// fourth field plus the fifth (iowait), total the sum of all fields; a
/// later `cpu` line replaces an earlier aggregate.
pub open spec fn cpu_scan(ls: Seq<Seq<char>>) -> (Option<(int, int)>, Seq<(int, int)>)
    decreases ls.len(),
{
    if ls.len() == 0 {
        (None, Seq::<(int, int)>::empty())
    } else {
        let (agg, cores) = cpu_scan(ls.drop_last());
        let l = ls.last();
        let f = cpu_fields(l);
        if f.len() < 5 {
            (agg, cores)
        } else {
            let j = (f[3] + f[4], sum(f));
            if words(l)[0] == "cpu"@ {
                (Some(j), cores)
            } else {
                (agg, cores.push(j))
            }
        }
    }
}

/// A per-core line: a `cpuN` line (not the aggregate `cpu`) with at least
/// five fields.
pub open spec fn is_core_line(l: Seq<char>) -> bool {
    cpu_fields(l).len() >= 5 && words(l)[0] != "cpu"@
}

/// The `(idle, total)` jiffies one CPU line reports: idle plus iowait, and
/// the sum of all its fields.
pub open spec fn line_jiffies(l: Seq<char>) -> (int, int) {
    let f = cpu_fields(l);
    (f[3] + f[4], sum(f))
}

/// The per-core lines among `ls`, in their order.
pub open spec fn core_lines(ls: Seq<Seq<char>>) -> Seq<Seq<char>> {
    ls.filter(|l: Seq<char>| is_core_line(l))
}

/// Per-core results follow the lines: the `k`-th per-core entry of a scan
/// is the jiffies of the `k`-th per-core line, so core 0 comes first and no
/// line's figures land at another line's place.
pub proof fn lemma_cores_follow_lines(ls: Seq<Seq<char>>)
    ensures
        cpu_scan(ls).1.len() == core_lines(ls).len(),
        forall|k: int|
            0 <= k < core_lines(ls).len() ==> #[trigger] cpu_scan(ls).1[k] == line_jiffies(
                core_lines(ls)[k],
            ),
    decreases ls.len(),
{
    reveal(Seq::filter);
    if ls.len() > 0 {
        lemma_cores_follow_lines(ls.drop_last());
        let l = ls.last();
        let prev = cpu_scan(ls.drop_last()).1;
        let cl = core_lines(ls.drop_last());
        assert(core_lines(ls) == if is_core_line(l) {
            cl.push(l)
        } else {
            cl
        });
        let f = cpu_fields(l);
        if f.len() >= 5 && words(l)[0] != "cpu"@ {
            assert(cpu_scan(ls).1 == prev.push((f[3] + f[4], sum(f))));
            assert forall|k: int| 0 <= k < core_lines(ls).len() implies #[trigger] cpu_scan(ls).1[k]
                == line_jiffies(core_lines(ls)[k]) by {
                if k < cl.len() {
                    assert(cpu_scan(ls).1[k] == prev[k]);
                    assert(core_lines(ls)[k] == cl[k]);
                }
            }
        } else {
            assert(cpu_scan(ls).1 == prev);
        }
    }
}

/// The CPU lines of a `/proc/stat` text: the lines up to the first one that
/// does not start with `cpu`.
pub open spec fn cpu_lines(stat: Seq<char>) -> Seq<Seq<char>> {
    lines(stat).take(cpu_prefix_len(lines(stat)) as int)
}

/// Every counted CPU line's fields add up within a `u64` (the sums are
/// computed in `u64`).
pub open spec fn cpu_sums_fit(stat: Seq<char>) -> bool {
    forall|k: int|
        0 <= k < cpu_lines(stat).len() ==> cpu_fields(#[trigger] cpu_lines(stat)[k]).len() < 5
            || sum(cpu_fields(cpu_lines(stat)[k])) <= u64::MAX
}

proof fn lemma_cpu_prefix(ls: Seq<Seq<char>>, i: int)
    requires
        0 <= i < ls.len(),
        forall|j: int| 0 <= j < i ==> starts_with(#[trigger] ls[j], "cpu"@),
    ensures
        starts_with(ls[i], "cpu"@) ==> cpu_prefix_len(ls) > i,
        !starts_with(ls[i], "cpu"@) ==> cpu_prefix_len(ls) == i,
    decreases i,
{
    if i > 0 {
        assert forall|j: int| 0 <= j < i - 1 implies starts_with(
            #[trigger] ls.drop_first()[j],
            "cpu"@,
        ) by {
            assert(ls.drop_first()[j] == ls[j + 1]);
        }
        lemma_cpu_prefix(ls.drop_first(), i - 1);
    }
}

proof fn lemma_cpu_prefix_le(ls: Seq<Seq<char>>)
    ensures
        cpu_prefix_len(ls) <= ls.len(),
    decreases ls.len(),
{
    if ls.len() > 0 {
        lemma_cpu_prefix_le(ls.drop_first());
    }
}

proof fn lemma_cpu_prefix_all(ls: Seq<Seq<char>>)
    requires
        forall|j: int| 0 <= j < ls.len() ==> starts_with(#[trigger] ls[j], "cpu"@),
    ensures
        cpu_prefix_len(ls) == ls.len(),
    decreases ls.len(),
{
    if ls.len() > 0 {
        assert forall|j: int| 0 <= j < ls.len() - 1 implies starts_with(
            #[trigger] ls.drop_first()[j],
            "cpu"@,
        ) by {
            assert(ls.drop_first()[j] == ls[j + 1]);
        }
        lemma_cpu_prefix_all(ls.drop_first());
    }
}

proof fn lemma_words_of_leading_nonws(s: Seq<char>)
    requires
        s.len() > 0,
        !is_ws(s[0]),
    ensures
        words(s).len() > 0,
    decreases s.len(),
{
    if s.len() > 1 {
        assert(s.drop_last()[0] == s[0]);
        lemma_words_of_leading_nonws(s.drop_last());
    } else {
        assert(!is_ws(s.last()));
    }
}

/// Parses `/proc/stat`: the aggregate `(idle, total)` jiffies and those of
/// each core, from the leading `cpu` lines. `None` when no aggregate `cpu`
/// line with five or more fields is among them.
pub fn parse_cpu_all(stat: &str) -> (res: Option<(CpuJiffies, Vec<CpuJiffies>)>)
    requires
        cpu_sums_fit(stat@),
    ensures
        ({
            let (agg, cores) = cpu_scan(cpu_lines(stat@));
            match res {
                None => agg is None,
                Some((a, c)) => agg == Some((a.0 as int, a.1 as int)) && c@.len() == cores.len()
                    && forall|k: int|
                    0 <= k < cores.len() ==> (#[trigger] c@[k]).0 == cores[k].0 && c@[k].1
                        == cores[k].1,
            }
        }),
        res matches Some((a, c)) ==> c@.len() == core_lines(cpu_lines(stat@)).len() && forall|k: int|
            0 <= k < c@.len() ==> ((#[trigger] c@[k]).0 as int, c@[k].1 as int) == line_jiffies(
                core_lines(cpu_lines(stat@))[k],
            ),
{
    proof {
        lemma_cores_follow_lines(cpu_lines(stat@));
    }
    let cs = chars_of(stat);
    let lr = line_ranges(&cs);
    let ghost ls = lines(cs@);
    let mut agg: Option<(u64, u64)> = None;
    let mut cores: Vec<(u64, u64)> = Vec::new();
    let mut i: usize = 0;
    let mut stopped = false;
    while i < lr.len() && !stopped
        invariant
            stopped ==> cpu_prefix_len(ls) == i,
            cs@ == stat@,
            ls == lines(stat@),
            lr@.len() == ls.len(),
            forall|k: int| 0 <= k < lr@.len() ==> #[trigger] range_holds(cs@, lr@[k], ls[k]),
            i <= lr@.len(),
            forall|j: int| 0 <= j < i ==> starts_with(#[trigger] ls[j], "cpu"@),
            cpu_sums_fit(stat@),
            ({
                let (a, c) = cpu_scan(ls.take(i as int));
                &&& (agg is None <==> a is None)
                &&& (agg matches Some(g) ==> a == Some((g.0 as int, g.1 as int)))
                &&& cores@.len() == c.len()
                &&& forall|k: int|
                    0 <= k < c.len() ==> (#[trigger] cores@[k]).0 == c[k].0 && cores@[k].1
                        == c[k].1
            }),
        decreases lr@.len() - i + (if stopped {
            0int
        } else {
            1int
        }),
    {
        let (a, b) = lr[i];
        assert(range_holds(cs@, lr@[i as int], ls[i as int]));
        let line = sub_chars(&cs, a, b);
        assert(line@ == ls[i as int]);
        if !starts_with_str(&line, "cpu") {
            proof {
                lemma_cpu_prefix(ls, i as int);
            }
            stopped = true;
            continue;
        }
        proof {
            lemma_cpu_prefix(ls, i as int);
            assert(starts_with(ls[i as int], "cpu"@));
            assert(cpu_prefix_len(ls) > i);
            lemma_cpu_prefix_le(ls);
            assert(ls.take(i + 1).drop_last() == ls.take(i as int));
            assert(ls.take(i + 1).last() == line@);
            assert(cpu_lines(stat@)[i as int] == line@);
            reveal_strlit("cpu");
            assert(line@.take(3)[0] == line@[0]);
            assert(line@[0] == 'c');
            lemma_words_of_leading_nonws(line@);
        }
        let wr = word_ranges(&line);
        let ghost ws = words(line@);
        let (la, lb) = wr[0];
        assert(range_holds(line@, wr@[0], ws[0]));
        let label = sub_chars(&line, la, lb);
        proof {
            assert forall|k: int| 0 <= k < wr@.len() implies (#[trigger] wr@[k]).0 <= wr@[k].1
                <= line@.len() by {
                assert(range_holds(line@, wr@[k], ws[k]));
            }
        }
        let fields = parse_words_from(&line, &wr, 1);
        proof {
            let wsd = Seq::new(
                (wr@.len() - 1) as nat,
                |k: int| line@.subrange(wr@[k + 1].0 as int, wr@[k + 1].1 as int),
            );
            assert forall|k: int| 0 <= k < wsd.len() implies wsd[k] == ws.drop_first()[k] by {
                assert(range_holds(line@, wr@[k + 1], ws[k + 1]));
            }
            assert(wsd =~= ws.drop_first());
        }
        if fields.len() >= 5 {
            proof {
                lemma_sum_pair(fields@);
                assert(cpu_fields(cpu_lines(stat@)[i as int]).len() >= 5);
            }
            let idle = fields[3] + fields[4];
            let mut total: u64 = 0;
            let mut k: usize = 0;
            while k < fields.len()
                invariant
                    k <= fields@.len(),
                    total == sum(fields@.take(k as int)),
                    sum(fields@) <= u64::MAX,
                decreases fields@.len() - k,
            {
                proof {
                    assert(fields@.take(k + 1).drop_last() == fields@.take(k as int));
                    lemma_sum_nonneg(fields@.take(k as int));
                    lemma_sum_mono(fields@, k + 1);
                }
                total = total + fields[k];
                k += 1;
            }
            assert(fields@.take(fields@.len() as int) == fields@);
            if chars_eq_str(&label, "cpu") {
                agg = Some((idle, total));
            } else {
                cores.push((idle, total));
            }
        }
        i += 1;
    }
    proof {
        if !stopped {
            lemma_cpu_prefix_all(ls);
            assert(ls.take(i as int) == ls);
        }
        assert(cpu_lines(stat@) == ls.take(i as int));
    }
    match agg {
        Some(a) => Some((a, cores)),
        None => None,
    }
}

/// Whether `parse_cpu_all` can add up every counted CPU line of `stat` in
/// a `u64` (see `cpu_sums_fit`).
pub fn cpu_sums_fit_check(stat: &str) -> (res: bool)
    ensures
        res == cpu_sums_fit(stat@),
{
    let cs = chars_of(stat);
    let lr = line_ranges(&cs);
    let ghost ls = lines(cs@);
    let mut i: usize = 0;
    let mut stopped = false;
    while i < lr.len() && !stopped
        invariant
            stopped ==> cpu_prefix_len(ls) == i,
            cs@ == stat@,
            ls == lines(stat@),
            lr@.len() == ls.len(),
            forall|k: int| 0 <= k < lr@.len() ==> #[trigger] range_holds(cs@, lr@[k], ls[k]),
            i <= lr@.len(),
            forall|j: int| 0 <= j < i ==> starts_with(#[trigger] ls[j], "cpu"@),
            forall|j: int|
                0 <= j < i ==> cpu_fields(#[trigger] ls[j]).len() < 5 || sum(cpu_fields(ls[j]))
                    <= u64::MAX,
        decreases lr@.len() - i + (if stopped {
            0int
        } else {
            1int
        }),
    {
        let (a, b) = lr[i];
        assert(range_holds(cs@, lr@[i as int], ls[i as int]));
        let line = sub_chars(&cs, a, b);
        assert(line@ == ls[i as int]);
        if !starts_with_str(&line, "cpu") {
            proof {
                lemma_cpu_prefix(ls, i as int);
            }
            stopped = true;
            continue;
        }
        proof {
            lemma_cpu_prefix(ls, i as int);
            lemma_cpu_prefix_le(ls);
            reveal_strlit("cpu");
            assert(line@.take(3)[0] == line@[0]);
            assert(line@[0] == 'c');
            lemma_words_of_leading_nonws(line@);
        }
        let wr = word_ranges(&line);
        let ghost ws = words(line@);
        proof {
            assert forall|k: int| 0 <= k < wr@.len() implies (#[trigger] wr@[k]).0 <= wr@[k].1
                <= line@.len() by {
                assert(range_holds(line@, wr@[k], ws[k]));
            }
        }
        let fields = parse_words_from(&line, &wr, 1);
        proof {
            let wsd = Seq::new(
                (wr@.len() - 1) as nat,
                |k: int| line@.subrange(wr@[k + 1].0 as int, wr@[k + 1].1 as int),
            );
            assert forall|k: int| 0 <= k < wsd.len() implies wsd[k] == ws.drop_first()[k] by {
                assert(range_holds(line@, wr@[k + 1], ws[k + 1]));
            }
            assert(wsd =~= ws.drop_first());
            assert(fields@ == cpu_fields(ls[i as int]));
        }
        if fields.len() >= 5 {
            let mut total: u64 = 0;
            let mut k: usize = 0;
            while k < fields.len()
                invariant
                    k <= fields@.len(),
                    total == sum(fields@.take(k as int)),
                    cs@ == stat@,
                    ls == lines(stat@),
                    i < ls.len(),
                    cpu_prefix_len(ls) > i,
                    cpu_prefix_len(ls) <= ls.len(),
                    fields@ == cpu_fields(ls[i as int]),
                    fields@.len() >= 5,
                decreases fields@.len() - k,
            {
                proof {
                    assert(fields@.take(k + 1).drop_last() == fields@.take(k as int));
                    lemma_sum_mono(fields@, k + 1);
                }
                match total.checked_add(fields[k]) {
                    Some(t) => total = t,
                    None => {
                        proof {
                            assert(cpu_lines(stat@)[i as int] == ls[i as int]);
                            assert(sum(fields@) > u64::MAX);
                        }
                        return false;
                    },
                }
                k += 1;
            }
            assert(fields@.take(fields@.len() as int) == fields@);
        }
        i += 1;
    }
    proof {
        if !stopped {
            lemma_cpu_prefix_all(ls);
            assert(ls.take(i as int) == ls);
        }
        assert(cpu_lines(stat@) == ls.take(i as int));
        assert forall|k: int| 0 <= k < cpu_lines(stat@).len() implies cpu_fields(
            #[trigger] cpu_lines(stat@)[k],
        ).len() < 5 || sum(cpu_fields(cpu_lines(stat@)[k])) <= u64::MAX by {
            assert(cpu_lines(stat@)[k] == ls[k]);
        }
    }
    true
}

proof fn lemma_sum_mono(f: Seq<u64>, j: int)
    requires
        0 <= j <= f.len(),
    ensures
        sum(f.take(j)) <= sum(f),
    decreases f.len() - j,
{
    if j < f.len() {
        lemma_sum_mono(f, j + 1);
        assert(f.take(j + 1).drop_last() == f.take(j));
    } else {
        assert(f.take(j) == f);
    }
}

// ---------------------------------------------------------------------------
// /proc/meminfo
// ---------------------------------------------------------------------------

/// Memory figures in bytes.
#[derive(Clone, Copy, Debug, Default)]
pub struct MemInfo {
    pub total_bytes: u64,
    pub avail_bytes: u64,
    pub buffers_bytes: u64,
    /// `Cached` plus `SReclaimable`, as htop counts it.
    pub cached_bytes: u64,
}

/// The key and first value of a `Key: value unit` line, when it has a colon
/// and its first word after the colon parses.
pub open spec fn key_value(l: Seq<char>) -> Option<(Seq<char>, u64)> {
    match first_index_of(l, ':') {
        None => None,
        Some(i) => {
            let w = words(l.subrange(i + 1, l.len() as int));
            if w.len() > 0 && parse_u64(w[0]) is Some {
                Some((l.subrange(0, i), parse_u64(w[0])->0))
            } else {
                None
            }
        },
    }
}

/// `(MemTotal, MemAvailable, Buffers, Cached, SReclaimable)` in kB as read
/// so far; a later line for a key replaces an earlier one.
pub open spec fn mem_scan(ls: Seq<Seq<char>>) -> (Option<u64>, Option<u64>, u64, u64, u64)
    decreases ls.len(),
{
    if ls.len() == 0 {
        (None, None, 0, 0, 0)
    } else {
        let (t, a, b, c, r) = mem_scan(ls.drop_last());
        match key_value(ls.last()) {
            None => (t, a, b, c, r),
            Some((k, v)) => if k == "MemTotal"@ {
                (Some(v), a, b, c, r)
            } else if k == "MemAvailable"@ {
                (t, Some(v), b, c, r)
            } else if k == "Buffers"@ {
                (t, a, v, c, r)
            } else if k == "Cached"@ {
                (t, a, b, v, r)
            } else if k == "SReclaimable"@ {
                (t, a, b, c, v)
            } else {
                (t, a, b, c, r)
            },
        }
    }
}

fn key_value_of(line: &Vec<char>) -> (res: Option<(Vec<char>, u64)>)
    ensures
        match res {
            None => key_value(line@) is None,
            Some((k, v)) => key_value(line@) == Some((k@, v)),
        },
{
    proof {
        lemma_first_index_of(line@, ':');
    }
    let colon = match find_char(line, ':') {
        None => return None,
        Some(i) => i,
    };
    let n = line.len();
    assert(colon < n);
    let rest = sub_chars(line, colon + 1, n);
    let wr = word_ranges(&rest);
    if wr.len() == 0 {
        return None;
    }
    let (a, b) = wr[0];
    assert(range_holds(rest@, wr@[0], words(rest@)[0]));
    match parse_u64_range(&rest, a, b) {
        None => None,
        Some(v) => {
            let key = sub_chars(line, 0, colon);
            Some((key, v))
        },
    }
}

/// `kib * 1024`, saturating at `u64::MAX`.
fn kib_to_bytes(kib: u64) -> (res: u64)
    ensures
        res == sat(kib * 1024),
{
    if kib > u64::MAX / 1024 {
        u64::MAX
    } else {
        kib * 1024
    }
}

/// Parses `/proc/meminfo` into bytes. `None` when `MemTotal` or
/// `MemAvailable` is missing; the kB figures are multiplied by 1024,
/// saturating, and `Cached` and `SReclaimable` are added, saturating.
pub fn parse_mem(meminfo: &str) -> (res: Option<MemInfo>)
    ensures
        ({
            let (t, a, b, c, r) = mem_scan(lines(meminfo@));
            match res {
                None => t is None || a is None,
                Some(m) => t is Some && a is Some && m.total_bytes == sat(t->0 * 1024)
                    && m.avail_bytes == sat(a->0 * 1024) && m.buffers_bytes == sat(b * 1024)
                    && m.cached_bytes == sat(sat(c + r) * 1024),
            }
        }),
{
    let cs = chars_of(meminfo);
    let lr = line_ranges(&cs);
    let ghost ls = lines(cs@);
    let mut total_kb: Option<u64> = None;
    let mut avail_kb: Option<u64> = None;
    let mut buffers_kb: u64 = 0;
    let mut cached_kb: u64 = 0;
    let mut sreclaim_kb: u64 = 0;
    for i in 0..lr.len()
        invariant
            cs@ == meminfo@,
            ls == lines(meminfo@),
            lr@.len() == ls.len(),
            forall|k: int| 0 <= k < lr@.len() ==> #[trigger] range_holds(cs@, lr@[k], ls[k]),
            mem_scan(ls.take(i as int)) == (total_kb, avail_kb, buffers_kb, cached_kb, sreclaim_kb),
    {
        let (a, b) = lr[i];
        assert(range_holds(cs@, lr@[i as int], ls[i as int]));
        let line = sub_chars(&cs, a, b);
        assert(ls.take(i + 1).drop_last() == ls.take(i as int));
        assert(ls.take(i + 1).last() == line@);
        match key_value_of(&line) {
            None => {},
            Some((k, v)) => {
                if chars_eq_str(&k, "MemTotal") {
                    total_kb = Some(v);
                } else if chars_eq_str(&k, "MemAvailable") {
                    avail_kb = Some(v);
                } else if chars_eq_str(&k, "Buffers") {
                    buffers_kb = v;
                } else if chars_eq_str(&k, "Cached") {
                    cached_kb = v;
                } else if chars_eq_str(&k, "SReclaimable") {
                    sreclaim_kb = v;
                }
            },
        }
    }
    assert(ls.take(lr@.len() as int) == ls);
    let t = match total_kb {
        Some(t) => t,
        None => return None,
    };
    let av = match avail_kb {
        Some(a) => a,
        None => return None,
    };
    Some(
        MemInfo {
            total_bytes: kib_to_bytes(t),
            avail_bytes: kib_to_bytes(av),
            buffers_bytes: kib_to_bytes(buffers_kb),
            cached_bytes: kib_to_bytes(cached_kb.saturating_add(sreclaim_kb)),
        },
    )
}

/// Memory in use: total minus available, never below zero.
pub fn used_memory(m: &MemInfo) -> (res: u64)
    ensures
        res == (if m.total_bytes >= m.avail_bytes {
            (m.total_bytes - m.avail_bytes) as u64
        } else {
            0u64
        }),
{
    m.total_bytes.saturating_sub(m.avail_bytes)
}

// ---------------------------------------------------------------------------
// /proc/net/dev
// ---------------------------------------------------------------------------

/// Interfaces that are not physical: loopback, container and VM bridges,
/// tunnels and the macOS virtual ones.
pub open spec fn virtual_iface(n: Seq<char>) -> bool {
    ||| n == "lo"@
    ||| starts_with(n, "docker"@)
    ||| starts_with(n, "br-"@)
    ||| starts_with(n, "veth"@)
    ||| starts_with(n, "tun"@)
    ||| starts_with(n, "tap"@)
    ||| starts_with(n, "vboxnet"@)
    ||| starts_with(n, "virbr"@)
    ||| n == "bridge0"@
    ||| starts_with(n, "utun"@)
    ||| starts_with(n, "awdl"@)
    ||| starts_with(n, "llw"@)
    ||| starts_with(n, "anpi"@)
    ||| starts_with(n, "ap"@)
}

fn is_virtual_chars(n: &Vec<char>) -> (res: bool)
    ensures
        res == virtual_iface(n@),
{
    chars_eq_str(n, "lo") || starts_with_str(n, "docker") || starts_with_str(n, "br-")
        || starts_with_str(n, "veth") || starts_with_str(n, "tun") || starts_with_str(n, "tap")
        || starts_with_str(n, "vboxnet") || starts_with_str(n, "virbr") || chars_eq_str(
        n,
        "bridge0",
    ) || starts_with_str(n, "utun") || starts_with_str(n, "awdl") || starts_with_str(n, "llw")
        || starts_with_str(n, "anpi") || starts_with_str(n, "ap")
}

/// Whether an interface name is a virtual one.
pub fn is_virtual_iface(name: &str) -> (res: bool)
    ensures
        res == virtual_iface(name@),
{
    let cs = chars_of(name);
    is_virtual_chars(&cs)
}

/// One interface line of `/proc/net/dev`: its trimmed name and received
/// and transmitted byte totals, when it has a colon, a physical name and
/// at least nine numeric fields.
pub open spec fn iface_entry(l: Seq<char>) -> Option<(Seq<char>, u64, u64)> {
    match first_index_of(l, ':') {
        None => None,
        Some(i) => {
            let name = trim(l.subrange(0, i));
            let f = parsed_words(words(l.subrange(i + 1, l.len() as int)));
            if virtual_iface(name) || f.len() < 9 {
                None
            } else {
                Some((name, f[0], f[8]))
            }
        },
    }
}

/// The busiest interface among the lines read so far, with its traffic
/// `rx + tx` (saturating); the first one wins a tie.
pub open spec fn iface_scan(ls: Seq<Seq<char>>) -> Option<(Seq<char>, u64, u64, u64)>
    decreases ls.len(),
{
    if ls.len() == 0 {
        None
    } else {
        let best = iface_scan(ls.drop_last());
        match iface_entry(ls.last()) {
            None => best,
            Some((n, rx, tx)) => {
                let busy = sat(rx + tx);
                match best {
                    Some((_, _, _, b)) if b >= busy => best,
                    _ => Some((n, rx, tx, busy)),
                }
            },
        }
    }
}

/// The lines after the first `n` (none when there are no more).
pub open spec fn skip_lines(ls: Seq<Seq<char>>, n: int) -> Seq<Seq<char>> {
    if ls.len() <= n {
        Seq::<Seq<char>>::empty()
    } else {
        ls.skip(n)
    }
}

/// Picks the primary physical interface of a `/proc/net/dev` text (two
/// header lines, then one line per interface): the one with the most
/// traffic, the first on a tie. Returns its name and byte totals.
pub fn pick_primary_iface(net_dev: &str) -> (res: Option<(String, u64, u64)>)
    ensures
        ({
            let best = iface_scan(skip_lines(lines(net_dev@), 2));
            match res {
                None => best is None,
                Some((n, rx, tx)) => best matches Some(b) && b.0 == n@ && b.1 == rx && b.2 == tx,
            }
        }),
{
    let cs = chars_of(net_dev);
    let lr = line_ranges(&cs);
    let ghost ls = lines(cs@);
    if lr.len() <= 2 {
        return None;
    }
    let ghost body = skip_lines(ls, 2);
    let mut best: Option<(Vec<char>, u64, u64, u64)> = None;
    let mut i: usize = 2;
    while i < lr.len()
        invariant
            cs@ == net_dev@,
            ls == lines(net_dev@),
            body == ls.skip(2),
            ls.len() > 2,
            lr@.len() == ls.len(),
            forall|k: int| 0 <= k < lr@.len() ==> #[trigger] range_holds(cs@, lr@[k], ls[k]),
            2 <= i <= lr@.len(),
            ({
                let s = iface_scan(body.take(i - 2));
                match best {
                    None => s is None,
                    Some((n, rx, tx, b)) => s == Some((n@, rx, tx, b)),
                }
            }),
        decreases lr@.len() - i,
    {
        let (a, b) = lr[i];
        assert(range_holds(cs@, lr@[i as int], ls[i as int]));
        let line = sub_chars(&cs, a, b);
        assert(body.take(i - 1).drop_last() == body.take(i - 2));
        assert(body.take(i - 1).last() == line@);
        proof {
            lemma_first_index_of(line@, ':');
        }
        let n = line.len();
        if let Some(colon) = find_char(&line, ':') {
            assert(colon < n);
            let raw = sub_chars(&line, 0, colon);
            let name = trim_chars(&raw);
            if !is_virtual_chars(&name) {
                let rest = sub_chars(&line, colon + 1, n);
                let wr = word_ranges(&rest);
                let ghost ws = words(rest@);
                proof {
                    assert forall|k: int| 0 <= k < wr@.len() implies (#[trigger] wr@[k]).0
                        <= wr@[k].1 <= rest@.len() by {
                        assert(range_holds(rest@, wr@[k], ws[k]));
                    }
                }
                let fields = parse_words_from(&rest, &wr, 0);
                proof {
                    let wsd = Seq::new(
                        (wr@.len() - 0) as nat,
                        |k: int| rest@.subrange(wr@[k + 0].0 as int, wr@[k + 0].1 as int),
                    );
                    assert forall|k: int| 0 <= k < wsd.len() implies wsd[k] == ws[k] by {
                        assert(range_holds(rest@, wr@[k], ws[k]));
                    }
                    assert(wsd =~= ws);
                }
                if fields.len() >= 9 {
                    let rx = fields[0];
                    let tx = fields[8];
                    let busy = rx.saturating_add(tx);
                    let replace = match &best {
                        Some((_, _, _, bb)) => *bb < busy,
                        None => true,
                    };
                    if replace {
                        best = Some((name, rx, tx, busy));
                    }
                }
            }
        }
        i += 1;
    }
    assert(body.take(lr@.len() - 2) == body);
    match best {
        Some((n, rx, tx, _)) => Some((string_of(&n), rx, tx)),
        None => None,
    }
}

// ---------------------------------------------------------------------------
// Samples between two requests
// ---------------------------------------------------------------------------

/// The counters kept from the previous metrics request.
#[derive(Clone, Debug, Default)]
pub struct MetricsSamples {
    /// `(rx_total, tx_total, at_ms)` of the primary interface; `at_ms` is a
    /// monotonic clock reading in milliseconds.
    pub net: Option<(u64, u64, u64)>,
    /// Aggregate `(idle, total)` jiffies.
    pub cpu: Option<(u64, u64)>,
    /// Per-core `(idle, total)` jiffies, indexed by core.
    pub cpu_per: Vec<(u64, u64)>,
}

/// The jiffies elapsed between two samples, `(idle, total)`: none when the
/// total has not advanced (or there is no earlier sample).
pub open spec fn jiffy_delta_spec(now: (u64, u64), prev: Option<(u64, u64)>) -> Option<(u64, u64)> {
    match prev {
        Some((ip, tp)) if now.1 > tp => Some(
            (
                if now.0 >= ip {
                    (now.0 - ip) as u64
                } else {
                    0u64
                },
                (now.1 - tp) as u64,
            ),
        ),
        _ => None,
    }
}

pub fn jiffy_delta(now: (u64, u64), prev: Option<(u64, u64)>) -> (res: Option<(u64, u64)>)
    ensures
        res == jiffy_delta_spec(now, prev),
{
    match prev {
        Some((ip, tp)) => {
            if now.1 > tp {
                Some((now.0.saturating_sub(ip), now.1 - tp))
            } else {
                None
            }
        },
        None => None,
    }
}

/// What changed since the previous sample.
#[derive(Clone, Debug)]
pub struct MetricsDeltas {
    pub cpu: Option<(u64, u64)>,
    pub cores: Vec<Option<(u64, u64)>>,
    /// `(rx_bytes, tx_bytes, elapsed_ms)` on the primary interface.
    pub net: Option<(u64, u64, u64)>,
}

impl MetricsSamples {
    /// Records a new sample and returns what changed since the previous one.
    /// Core `i` is compared with core `i` of the previous sample; the network
    /// counters are kept only when a primary interface was found.
    pub fn advance(
        &mut self,
        cpu_now: (u64, u64),
        cores_now: Vec<(u64, u64)>,
        net_now: Option<(u64, u64)>,
        now_ms: u64,
    ) -> (res: MetricsDeltas)
        ensures
            res.cpu == jiffy_delta_spec(cpu_now, old(self).cpu),
            res.cores@.len() == cores_now@.len(),
            forall|i: int|
                0 <= i < cores_now@.len() ==> #[trigger] res.cores@[i] == jiffy_delta_spec(
                    cores_now@[i],
                    if i < old(self).cpu_per@.len() {
                        Some(old(self).cpu_per@[i])
                    } else {
                        None
                    },
                ),
            res.net == (match (net_now, old(self).net) {
                (Some((rx, tx)), Some((prx, ptx, pt))) => Some(
                    (
                        if rx >= prx {
                            (rx - prx) as u64
                        } else {
                            0u64
                        },
                        if tx >= ptx {
                            (tx - ptx) as u64
                        } else {
                            0u64
                        },
                        if now_ms >= pt {
                            (now_ms - pt) as u64
                        } else {
                            0u64
                        },
                    ),
                ),
                _ => None,
            }),
            final(self).cpu == Some(cpu_now),
            final(self).cpu_per@ == cores_now@,
            final(self).net == (match net_now {
                Some((rx, tx)) => Some((rx, tx, now_ms)),
                None => old(self).net,
            }),
    {
        let cpu = jiffy_delta(cpu_now, self.cpu);
        self.cpu = Some(cpu_now);
        let mut cores: Vec<Option<(u64, u64)>> = Vec::new();
        for i in 0..cores_now.len()
            invariant
                cores@.len() == i,
                forall|j: int|
                    0 <= j < i ==> #[trigger] cores@[j] == jiffy_delta_spec(
                        cores_now@[j],
                        if j < old(self).cpu_per@.len() {
                            Some(old(self).cpu_per@[j])
                        } else {
                            None
                        },
                    ),
                self.cpu_per@ == old(self).cpu_per@,
        {
            let prev = if i < self.cpu_per.len() {
                Some(self.cpu_per[i])
            } else {
                None
            };
            cores.push(jiffy_delta(cores_now[i], prev));
        }
        self.cpu_per = cores_now;
        let net = match (net_now, self.net) {
            (Some((rx, tx)), Some((prx, ptx, pt))) => Some(
                (rx.saturating_sub(prx), tx.saturating_sub(ptx), now_ms.saturating_sub(pt)),
            ),
            _ => None,
        };
        if let Some((rx, tx)) = net_now {
            self.net = Some((rx, tx, now_ms));
        }
        MetricsDeltas { cpu, cores, net }
    }
}

} // verus!
