//! Linux stat sources: parsers for the contents of `/proc/stat`,
//! `/proc/meminfo`, `/proc/vmstat`, `/proc/diskstats`, `/etc/os-release` and
//! `/sys/class/net/<iface>/{flags,speed}`, and the arithmetic on their
//! samples. Reading the files is the caller's business; these functions take
//! the contents.
use vstd::prelude::*;
use crate::text::{
    chars_of, find_char, find_in, lines, lines_in, parse_i64, parse_i64_in, parse_u64,
    parse_u64_in, parse_u64_radix, parse_u64_radix_in, range_eq, range_texts, ranges_within,
    starts_with_in, string_of, trim, trim_char, trim_char_in, trim_in, words, words_in,
};
use crate::plugins::{is_share_tenths, percent_tenths, percent_tenths_rounds, share_tenths};
use crate::namemap::NameMap;

verus! {

/// The text of the word ranges `wr` of `cs`, as `words` yields them.
pub open spec fn word_texts(cs: Seq<char>, wr: Seq<(usize, usize)>) -> Seq<Seq<char>> {
    range_texts(cs, wr)
}

/// The parsable `u64` values among `ws`, in order (`filter_map(parse)`).
pub open spec fn u64s(ws: Seq<Seq<char>>) -> Seq<u64>
    decreases ws.len(),
{
    if ws.len() == 0 {
        seq![]
    } else {
        match parse_u64(ws[0]) {
            Some(v) => seq![v] + u64s(ws.drop_first()),
            None => u64s(ws.drop_first()),
        }
    }
}

/// `v.get(i).copied().unwrap_or(0)`.
pub open spec fn nth_or_zero(v: Seq<u64>, i: int) -> u64 {
    if 0 <= i < v.len() {
        v[i]
    } else {
        0
    }
}

/// The second word of `ws` as a `u64`, `0` when absent or not a number.
pub open spec fn second_u64(ws: Seq<Seq<char>>) -> u64 {
    if ws.len() >= 2 {
        match parse_u64(ws[1]) {
            Some(v) => v,
            None => 0,
        }
    } else {
        0
    }
}

/// The parsable `u64` values among the words `wr[from..]` of `cs`.
fn u64s_in(cs: &Vec<char>, wr: &Vec<(usize, usize)>, from: usize) -> (r: Vec<u64>)
    requires
        ranges_within(wr@, 0, cs@.len() as int),
        from <= wr@.len(),
    ensures
        r@ == u64s(word_texts(cs@, wr@).skip(from as int)),
{
    let ghost ws = word_texts(cs@, wr@);
    let mut r: Vec<u64> = Vec::new();
    let mut k = from;
    while k < wr.len()
        invariant
            from <= k <= wr@.len(),
            ranges_within(wr@, 0, cs@.len() as int),
            ws == word_texts(cs@, wr@),
            u64s(ws.skip(from as int)) == r@ + u64s(ws.skip(k as int)),
        decreases wr@.len() - k,
    {
        let (a, b) = wr[k];
        assert(ws.skip(k as int)[0] == ws[k as int]);
        assert(ws.skip(k as int).drop_first() == ws.skip(k + 1));
        match parse_u64_in(cs, a, b) {
            Some(v) => {
                r.push(v);
                assert(r@ == r@.drop_last() + seq![v]);
                assert(u64s(ws.skip(from as int)) == r@ + u64s(ws.skip(k + 1)));
            },
            None => {},
        }
        k = k + 1;
    }
    assert(ws.skip(wr@.len() as int) == Seq::<Seq<char>>::empty());
    assert(r@ + Seq::<u64>::empty() == r@);
    r
}

/// `second_u64` of the words `wr` of `cs`.
fn second_u64_in(cs: &Vec<char>, wr: &Vec<(usize, usize)>) -> (r: u64)
    requires
        ranges_within(wr@, 0, cs@.len() as int),
    ensures
        r == second_u64(word_texts(cs@, wr@)),
{
    if wr.len() >= 2 {
        let (a, b) = wr[1];
        match parse_u64_in(cs, a, b) {
            Some(v) => v,
            None => 0,
        }
    } else {
        0
    }
}

/// Whether the word `w` of `cs` is the keyword `kw`.
fn word_is(cs: &Vec<char>, w: (usize, usize), kw: &Vec<char>) -> (r: bool)
    requires
        w.0 <= w.1 <= cs@.len(),
    ensures
        r == (cs@.subrange(w.0 as int, w.1 as int) == kw@),
{
    let r = range_eq(cs, w.0, w.1, kw, 0, kw.len());
    assert(kw@.subrange(0, kw@.len() as int) == kw@);
    r
}

/// Cumulative CPU jiffies from the aggregate `cpu` line, plus the
/// cumulative event counters used for the rate fields.
#[derive(Debug, Clone, Copy, PartialEq, Eq, Structural)]
pub struct CpuSample {
    pub user: u64,
    pub nice: u64,
    pub system: u64,
    pub idle: u64,
    pub iowait: u64,
    pub irq: u64,
    pub softirq: u64,
    pub steal: u64,
    pub guest: u64,
    pub guest_nice: u64,
    pub ctxt: u64,
    pub intr: u64,
    pub softirq_total: u64,
}

/// The all-zero sample.
pub open spec fn zero_sample() -> CpuSample {
    CpuSample {
        user: 0,
        nice: 0,
        system: 0,
        idle: 0,
        iowait: 0,
        irq: 0,
        softirq: 0,
        steal: 0,
        guest: 0,
        guest_nice: 0,
        ctxt: 0,
        intr: 0,
        softirq_total: 0,
    }
}

impl Default for CpuSample {
    fn default() -> (s: Self)
        ensures
            s == zero_sample(),
    {
        CpuSample {
            user: 0,
            nice: 0,
            system: 0,
            idle: 0,
            iowait: 0,
            irq: 0,
            softirq: 0,
            steal: 0,
            guest: 0,
            guest_nice: 0,
            ctxt: 0,
            intr: 0,
            softirq_total: 0,
        }
    }
}

/// One `/proc/stat` line, given as its words, applied to the sample read so
/// far and whether the aggregate `cpu` line was seen. `None`: a `cpu` line
/// with fewer than four numbers, which makes the whole parse fail.
pub open spec fn stat_line(st: (CpuSample, bool), ws: Seq<Seq<char>>) -> Option<(CpuSample, bool)> {
    if ws.len() == 0 {
        Some(st)
    } else if ws[0] == seq!['c', 'p', 'u'] {
        let v = u64s(ws.drop_first());
        if v.len() < 4 {
            None
        } else {
            Some(
                (
                    CpuSample {
                        user: v[0],
                        nice: v[1],
                        system: v[2],
                        idle: v[3],
                        iowait: nth_or_zero(v, 4),
                        irq: nth_or_zero(v, 5),
                        softirq: nth_or_zero(v, 6),
                        steal: nth_or_zero(v, 7),
                        guest: nth_or_zero(v, 8),
                        guest_nice: nth_or_zero(v, 9),
                        ..st.0
                    },
                    true,
                ),
            )
        }
    } else if ws[0] == seq!['c', 't', 'x', 't'] {
        Some((CpuSample { ctxt: second_u64(ws), ..st.0 }, st.1))
    } else if ws[0] == seq!['i', 'n', 't', 'r'] {
        Some((CpuSample { intr: second_u64(ws), ..st.0 }, st.1))
    } else if ws[0] == seq!['s', 'o', 'f', 't', 'i', 'r', 'q'] {
        Some((CpuSample { softirq_total: second_u64(ws), ..st.0 }, st.1))
    } else {
        Some(st)
    }
}

/// The lines `ls` of `/proc/stat` applied in order to `st`.
pub open spec fn stat_fold(ls: Seq<Seq<char>>, st: (CpuSample, bool)) -> Option<(CpuSample, bool)>
    decreases ls.len(),
{
    if ls.len() == 0 {
        Some(st)
    } else {
        match stat_line(st, words(ls[0])) {
            Some(next) => stat_fold(ls.drop_first(), next),
            None => None,
        }
    }
}

/// What `/proc/stat` holds: the sample, provided the aggregate `cpu` line is
/// present and well formed.
pub open spec fn proc_stat(content: Seq<char>) -> Option<CpuSample> {
    match stat_fold(lines(content), (zero_sample(), false)) {
        Some((s, seen)) => if seen {
            Some(s)
        } else {
            None
        },
        None => None,
    }
}

/// Whether the first word of line `l` is `w`.
pub open spec fn first_word_is(l: Seq<char>, w: Seq<char>) -> bool {
    words(l).len() > 0 && words(l)[0] == w
}

/// The index of the last of the lines `ls` whose first word is `w`.
pub open spec fn last_line_with(ls: Seq<Seq<char>>, w: Seq<char>) -> Option<int>
    decreases ls.len(),
{
    if ls.len() == 0 {
        None
    } else if first_word_is(ls.last(), w) {
        Some(ls.len() - 1)
    } else {
        last_line_with(ls.drop_last(), w)
    }
}

/// The numbers after the first word of line `l`.
pub open spec fn numbers_after_first(l: Seq<char>) -> Seq<u64> {
    u64s(words(l).drop_first())
}

/// `base` with its per-state times taken from the numbers of a `cpu` line.
pub open spec fn with_cpu_times(base: CpuSample, v: Seq<u64>) -> CpuSample {
    CpuSample {
        user: v[0],
        nice: v[1],
        system: v[2],
        idle: v[3],
        iowait: nth_or_zero(v, 4),
        irq: nth_or_zero(v, 5),
        softirq: nth_or_zero(v, 6),
        steal: nth_or_zero(v, 7),
        guest: nth_or_zero(v, 8),
        guest_nice: nth_or_zero(v, 9),
        ..base
    }
}

/// The second word, as a number, of the last line starting with `w`;
/// `d` when there is none.
pub open spec fn counter_or(ls: Seq<Seq<char>>, w: Seq<char>, d: u64) -> u64 {
    match last_line_with(ls, w) {
        Some(i) => second_u64(words(ls[i])),
        None => d,
    }
}

/// The sample the lines `ls` describe, read line by line from `base`: the
/// times of the last `cpu` line, and the `ctxt`, `intr` and `softirq`
/// counters of the last line of each.
pub open spec fn sample_of_lines(ls: Seq<Seq<char>>, base: CpuSample) -> CpuSample {
    let cpu = match last_line_with(ls, seq!['c', 'p', 'u']) {
        Some(i) => with_cpu_times(base, numbers_after_first(ls[i])),
        None => base,
    };
    CpuSample {
        ctxt: counter_or(ls, seq!['c', 't', 'x', 't'], base.ctxt),
        intr: counter_or(ls, seq!['i', 'n', 't', 'r'], base.intr),
        softirq_total: counter_or(ls, seq!['s', 'o', 'f', 't', 'i', 'r', 'q'], base.softirq_total),
        ..cpu
    }
}

/// Whether line `l` is a `cpu` line (its first word is `cpu`).
pub open spec fn is_cpu_line(l: Seq<char>) -> bool {
    first_word_is(l, seq!['c', 'p', 'u'])
}

/// Whether every `cpu` line of `ls` carries at least four numbers.
pub open spec fn cpu_lines_well_formed(ls: Seq<Seq<char>>) -> bool {
    forall|i: int|
        0 <= i < ls.len() && #[trigger] is_cpu_line(ls[i]) ==> numbers_after_first(ls[i]).len() >= 4
}

proof fn lemma_stat_fold_push(ls: Seq<Seq<char>>, l: Seq<char>, st: (CpuSample, bool))
    ensures
        stat_fold(ls.push(l), st) == match stat_fold(ls, st) {
            Some(x) => stat_line(x, words(l)),
            None => None,
        },
    decreases ls.len(),
{
    if ls.len() == 0 {
        assert(ls.push(l).drop_first() =~= Seq::<Seq<char>>::empty());
    } else {
        assert(ls.push(l).drop_first() =~= ls.drop_first().push(l));
        assert(ls.push(l)[0] == ls[0]);
        match stat_line(st, words(ls[0])) {
            Some(next) => lemma_stat_fold_push(ls.drop_first(), l, next),
            None => {},
        }
    }
}

proof fn lemma_last_line_exists(ls: Seq<Seq<char>>, w: Seq<char>)
    ensures
        last_line_with(ls, w) is Some <==> exists|i: int| 0 <= i < ls.len() && #[trigger] first_word_is(ls[i], w),
        last_line_with(ls, w) matches Some(i) ==> 0 <= i < ls.len() && first_word_is(ls[i], w),
    decreases ls.len(),
{
    if ls.len() > 0 {
        let p = ls.drop_last();
        lemma_last_line_exists(p, w);
        if exists|i: int| 0 <= i < ls.len() && #[trigger] first_word_is(ls[i], w) {
            let i = choose|i: int| 0 <= i < ls.len() && #[trigger] first_word_is(ls[i], w);
            if i < ls.len() - 1 {
                assert(first_word_is(p[i], w));
            }
        }
        if last_line_with(p, w) is Some {
            let i = choose|i: int| 0 <= i < p.len() && #[trigger] first_word_is(p[i], w);
            assert(first_word_is(ls[i], w));
        }
    }
}

proof fn lemma_stat_fold_some(ls: Seq<Seq<char>>, st: (CpuSample, bool))
    ensures
        stat_fold(ls, st) is Some <==> cpu_lines_well_formed(ls),
    decreases ls.len(),
{
    if ls.len() > 0 {
        let p = ls.drop_last();
        let l = ls.last();
        assert(p.push(l) =~= ls);
        lemma_stat_fold_push(p, l, st);
        lemma_stat_fold_some(p, st);
        assert forall|i: int| 0 <= i < p.len() implies #[trigger] p[i] == ls[i] by {}
        if cpu_lines_well_formed(ls) {
            assert forall|i: int| 0 <= i < p.len() && #[trigger] is_cpu_line(p[i]) implies numbers_after_first(p[i]).len()
                >= 4 by {
                assert(is_cpu_line(ls[i]));
            }
        }
        if cpu_lines_well_formed(p) && !(is_cpu_line(l) && numbers_after_first(l).len() < 4) {
            assert forall|i: int| 0 <= i < ls.len() && #[trigger] is_cpu_line(ls[i]) implies numbers_after_first(ls[i]).len()
                >= 4 by {
                if i < p.len() {
                    assert(is_cpu_line(p[i]));
                }
            }
        }
        if is_cpu_line(l) && numbers_after_first(l).len() < 4 {
            assert(is_cpu_line(ls[ls.len() - 1]));
        }
    }
}

#[verifier::rlimit(50)]
proof fn lemma_stat_fold_value(ls: Seq<Seq<char>>, st: (CpuSample, bool))
    ensures
        stat_fold(ls, st) matches Some(r) ==> r == (sample_of_lines(ls, st.0), st.1 || last_line_with(
            ls,
            seq!['c', 'p', 'u'],
        ) is Some),
    decreases ls.len(),
{
    if ls.len() > 0 {
        let p = ls.drop_last();
        let l = ls.last();
        let n = ls.len() - 1;
        assert(p.push(l) =~= ls);
        lemma_stat_fold_push(p, l, st);
        lemma_stat_fold_value(p, st);
        let kc = seq!['c', 'p', 'u'];
        let kx = seq!['c', 't', 'x', 't'];
        let ki = seq!['i', 'n', 't', 'r'];
        let ks = seq!['s', 'o', 'f', 't', 'i', 'r', 'q'];
        assert(kc != kx && kc != ki && kc != ks && kx != ki && kx != ks && ki != ks) by {
            assert(kc.len() != kx.len());
            assert(kc.len() != ki.len());
            assert(kc.len() != ks.len());
            assert(kx[0] != ki[0]);
            assert(kx.len() != ks.len());
            assert(ki.len() != ks.len());
        }
        match stat_fold(p, st) {
            Some(x) => {
                let ws = words(l);
                let sp = sample_of_lines(p, st.0);
                assert(x == (sp, st.1 || last_line_with(p, kc) is Some));
                assert forall|w: Seq<char>| #[trigger] last_line_with(ls, w) == if first_word_is(l, w) {
                    Some(n)
                } else {
                    last_line_with(p, w)
                } by {}
                assert forall|w: Seq<char>, d: u64| !first_word_is(l, w) implies #[trigger] counter_or(ls, w, d)
                    == counter_or(p, w, d) by {
                    if let Some(i) = last_line_with(p, w) {
                        lemma_last_line_exists(p, w);
                        assert(p[i] == ls[i]);
                    }
                }
                if !first_word_is(l, kc) {
                    if let Some(i) = last_line_with(p, kc) {
                        lemma_last_line_exists(p, kc);
                        assert(p[i] == ls[i]);
                    }
                }
                if ws.len() == 0 {
                } else if ws[0] == kc {
                    assert(first_word_is(l, kc));
                } else if ws[0] == kx {
                    assert(first_word_is(l, kx));
                    assert(counter_or(ls, kx, st.0.ctxt) == second_u64(ws));
                } else if ws[0] == ki {
                    assert(first_word_is(l, ki));
                    assert(counter_or(ls, ki, st.0.intr) == second_u64(ws));
                } else if ws[0] == ks {
                    assert(first_word_is(l, ks));
                    assert(counter_or(ls, ks, st.0.softirq_total) == second_u64(ws));
                } else {
                }
            },
            None => {},
        }
    }
}

/// What `parse_proc_stat` gives, read line by line: a sample exactly when
/// some line starts with the word `cpu` and every such line has at least
/// four numbers after it; the sample holds the times of the last `cpu`
/// line (the fifth to tenth as 0 where absent) and the second word of the
/// last `ctxt`, `intr` and `softirq` line, 0 where there is none.
pub proof fn proc_stat_reads_the_last_lines(content: Seq<char>)
    ensures
        ({
            let ls = lines(content);
            &&& proc_stat(content) is Some <==> (exists|i: int|
                0 <= i < ls.len() && #[trigger] is_cpu_line(ls[i])) && cpu_lines_well_formed(ls)
            &&& proc_stat(content) matches Some(s) ==> s == sample_of_lines(ls, zero_sample())
        }),
{
    let ls = lines(content);
    lemma_stat_fold_some(ls, (zero_sample(), false));
    lemma_stat_fold_value(ls, (zero_sample(), false));
    lemma_last_line_exists(ls, seq!['c', 'p', 'u']);
    if let Some(i) = last_line_with(ls, seq!['c', 'p', 'u']) {
        assert(is_cpu_line(ls[i]));
    }
    if exists|i: int| 0 <= i < ls.len() && #[trigger] is_cpu_line(ls[i]) {
        let i = choose|i: int| 0 <= i < ls.len() && #[trigger] is_cpu_line(ls[i]);
        assert(first_word_is(ls[i], seq!['c', 'p', 'u']));
    }
}

/// Parses the contents of `/proc/stat`.
pub fn parse_proc_stat(content: &str) -> (r: Option<CpuSample>)
    ensures
        r == proc_stat(content@),
{
    let cs = chars_of(content);
    let lr = lines_in(&cs);
    let ghost ls = range_texts(cs@, lr@);
    let kw_cpu = vec!['c', 'p', 'u'];
    let kw_ctxt = vec!['c', 't', 'x', 't'];
    let kw_intr = vec!['i', 'n', 't', 'r'];
    let kw_softirq = vec!['s', 'o', 'f', 't', 'i', 'r', 'q'];
    let mut s = CpuSample::default();
    let mut seen = false;
    let mut i: usize = 0;
    assert(ls.skip(0) == ls);
    while i < lr.len()
        invariant
            0 <= i <= lr@.len(),
            ranges_within(lr@, 0, cs@.len() as int),
            ls == range_texts(cs@, lr@),
            ls == lines(content@),
            kw_cpu@ == seq!['c', 'p', 'u'],
            kw_ctxt@ == seq!['c', 't', 'x', 't'],
            kw_intr@ == seq!['i', 'n', 't', 'r'],
            kw_softirq@ == seq!['s', 'o', 'f', 't', 'i', 'r', 'q'],
            stat_fold(ls, (zero_sample(), false)) == stat_fold(ls.skip(i as int), (s, seen)),
        decreases lr@.len() - i,
    {
        let (lo, hi) = lr[i];
        let wr = words_in(&cs, lo, hi);
        let ghost ws = word_texts(cs@, wr@);
        assert(ls[i as int] == cs@.subrange(lo as int, hi as int));
        assert(ls.skip(i as int)[0] == ls[i as int]);
        assert(ls.skip(i as int).drop_first() == ls.skip(i + 1));
        assert(ranges_within(wr@, 0, cs@.len() as int));
        if wr.len() > 0 {
            let w0 = wr[0];
            if word_is(&cs, w0, &kw_cpu) {
                let v = u64s_in(&cs, &wr, 1);
                assert(ws.skip(1) == ws.drop_first());
                if v.len() < 4 {
                    return None;
                }
                s = CpuSample {
                    user: v[0],
                    nice: v[1],
                    system: v[2],
                    idle: v[3],
                    iowait: if v.len() > 4 { v[4] } else { 0 },
                    irq: if v.len() > 5 { v[5] } else { 0 },
                    softirq: if v.len() > 6 { v[6] } else { 0 },
                    steal: if v.len() > 7 { v[7] } else { 0 },
                    guest: if v.len() > 8 { v[8] } else { 0 },
                    guest_nice: if v.len() > 9 { v[9] } else { 0 },
                    ..s
                };
                seen = true;
            } else if word_is(&cs, w0, &kw_ctxt) {
                s.ctxt = second_u64_in(&cs, &wr);
            } else if word_is(&cs, w0, &kw_intr) {
                s.intr = second_u64_in(&cs, &wr);
            } else if word_is(&cs, w0, &kw_softirq) {
                s.softirq_total = second_u64_in(&cs, &wr);
            }
        }
        i = i + 1;
    }
    assert(ls.skip(lr@.len() as int) == Seq::<Seq<char>>::empty());
    if seen {
        Some(s)
    } else {
        None
    }
}

} // verus!

verus! {

/// `v` kB in bytes, with the wrap-around of unchecked `u64` arithmetic.
pub open spec fn kib(v: u64) -> u64 {
    ((v as nat * 1024) % 0x1_0000_0000_0000_0000) as u64
}

/// The key and value of a `key: value ...` line: the text before the first
/// `':'` and the first word after it as a number of kB, in bytes.
pub open spec fn kv_entry(l: Seq<char>) -> Option<(Seq<char>, u64)> {
    let n = find_char(l, ':');
    if n < l.len() {
        let ws = words(l.skip(n + 1int));
        if ws.len() > 0 {
            match parse_u64(ws[0]) {
                Some(v) => Some((l.take(n as int), kib(v))),
                None => None,
            }
        } else {
            None
        }
    } else {
        None
    }
}

/// The value of the last line of `ls` whose key is `key`.
pub open spec fn kv_lookup(ls: Seq<Seq<char>>, key: Seq<char>) -> Option<u64>
    decreases ls.len(),
{
    if ls.len() == 0 {
        None
    } else {
        match kv_entry(ls.last()) {
            Some((k, v)) => if k == key {
                Some(v)
            } else {
                kv_lookup(ls.drop_last(), key)
            },
            None => kv_lookup(ls.drop_last(), key),
        }
    }
}

/// The second word of the last line of `ls` whose first word is `key`, as a
/// `u64` (`0` when it is not a number).
pub open spec fn word_lookup(ls: Seq<Seq<char>>, key: Seq<char>) -> Option<u64>
    decreases ls.len(),
{
    if ls.len() == 0 {
        None
    } else {
        let ws = words(ls.last());
        if ws.len() > 0 && ws[0] == key {
            Some(second_u64(ws))
        } else {
            word_lookup(ls.drop_last(), key)
        }
    }
}

/// `kv_lookup`, `0` when the key is absent.
pub open spec fn kv_or_zero(ls: Seq<Seq<char>>, key: Seq<char>) -> u64 {
    match kv_lookup(ls, key) {
        Some(v) => v,
        None => 0,
    }
}

/// The `kv_entry` of the line `cs[lo..hi]`: the key's range and the value.
fn kv_entry_in(cs: &Vec<char>, lo: usize, hi: usize) -> (r: Option<(usize, usize, u64)>)
    requires
        lo <= hi <= cs@.len(),
    ensures
        r matches Some((a, b, v)) ==> lo <= a <= b <= hi && kv_entry(
            cs@.subrange(lo as int, hi as int),
        ) == Some((cs@.subrange(a as int, b as int), v)),
        r is None ==> kv_entry(cs@.subrange(lo as int, hi as int)) is None,
{
    let ghost l = cs@.subrange(lo as int, hi as int);
    let n = find_in(cs, lo, hi, ':');
    if n < hi - lo {
        let wr = words_in(cs, lo + n + 1, hi);
        assert(l.skip(n + 1) == cs@.subrange(lo + n + 1, hi as int));
        if wr.len() > 0 {
            let (a, b) = wr[0];
            assert(range_texts(cs@, wr@)[0] == cs@.subrange(a as int, b as int));
            match parse_u64_in(cs, a, b) {
                Some(v) => {
                    assert(l.take(n as int) == cs@.subrange(lo as int, lo + n));
                    Some((lo, lo + n, v.wrapping_mul(1024)))
                },
                None => None,
            }
        } else {
            None
        }
    } else {
        None
    }
}

/// Memory figures in bytes, following `psutil.virtual_memory()` on Linux;
/// `percent_tenths` is the used share in tenths of a percent.
#[derive(Debug, Clone, Copy, PartialEq, Eq, Structural)]
pub struct MemInfo {
    pub total: u64,
    pub available: u64,
    pub free: u64,
    pub buffers: u64,
    pub cached: u64,
    pub active: u64,
    pub inactive: u64,
    pub used: u64,
    pub percent_tenths: u64,
}

/// What `/proc/meminfo` says: `available` falls back to `free` without a
/// `MemAvailable` line, `cached` is `Cached + SReclaimable`, `used` is
/// `total - free - cached - buffers` (each step clamped at zero), and the
/// percentage is `(total - available) / total`.
pub open spec fn meminfo(content: Seq<char>) -> MemInfo {
    let ls = lines(content);
    let total = kv_or_zero(ls, "MemTotal"@);
    let free = kv_or_zero(ls, "MemFree"@);
    let available = match kv_lookup(ls, "MemAvailable"@) {
        Some(v) => v,
        None => free,
    };
    let buffers = kv_or_zero(ls, "Buffers"@);
    let cached = vstd::wrapping::u64_specs::wrapping_add(
        kv_or_zero(ls, "Cached"@),
        kv_or_zero(ls, "SReclaimable"@),
    );
    let used = sat_sub(sat_sub(sat_sub(total, free), cached), buffers);
    MemInfo {
        total,
        available,
        free,
        buffers,
        cached,
        active: kv_or_zero(ls, "Active"@),
        inactive: kv_or_zero(ls, "Inactive"@),
        used,
        percent_tenths: if total == 0 {
            0
        } else {
            percent_tenths(sat_sub(total, available) as int, total as int) as u64
        },
    }
}

/// `a.saturating_sub(b)`.
pub open spec fn sat_sub(a: u64, b: u64) -> u64 {
    if a >= b {
        (a - b) as u64
    } else {
        0
    }
}

/// Tracks `kv_lookup` of one key while the lines are read in order.
fn track_kv(
    cs: &Vec<char>,
    entry: Option<(usize, usize, u64)>,
    kw: &Vec<char>,
    cur: Option<u64>,
) -> (r: Option<u64>)
    requires
        entry matches Some((a, b, v)) ==> a <= b <= cs@.len(),
    ensures
        r == (match entry {
            Some((a, b, v)) => if cs@.subrange(a as int, b as int) == kw@ {
                Some(v)
            } else {
                cur
            },
            None => cur,
        }),
{
    match entry {
        Some((a, b, v)) => if word_is(cs, (a, b), kw) {
            Some(v)
        } else {
            cur
        },
        None => cur,
    }
}

proof fn lemma_kv_step(ls: Seq<Seq<char>>, i: int, key: Seq<char>)
    requires
        0 <= i < ls.len(),
    ensures
        kv_lookup(ls.take(i + 1), key) == (match kv_entry(ls[i]) {
            Some((k, v)) => if k == key {
                Some(v)
            } else {
                kv_lookup(ls.take(i), key)
            },
            None => kv_lookup(ls.take(i), key),
        }),
{
    assert(ls.take(i + 1).drop_last() == ls.take(i));
    assert(ls.take(i + 1).last() == ls[i]);
}

/// Whether line `l` is a `key: value` line for `key`.
pub open spec fn has_key(l: Seq<char>, key: Seq<char>) -> bool {
    match kv_entry(l) {
        Some((k, _)) => k == key,
        None => false,
    }
}

/// The value, in bytes, of a `key: value kB` line.
pub open spec fn entry_value(l: Seq<char>) -> u64 {
    match kv_entry(l) {
        Some((_, v)) => v,
        None => 0,
    }
}

/// Whether line `i` of `ls` is the last one for `key`.
pub open spec fn last_with_key(ls: Seq<Seq<char>>, i: int, key: Seq<char>) -> bool {
    &&& 0 <= i < ls.len()
    &&& has_key(ls[i], key)
    &&& forall|j: int| i < j < ls.len() ==> !#[trigger] has_key(ls[j], key)
}

/// The value of the last line for `key`, `None` when no line has it.
pub open spec fn key_value(ls: Seq<Seq<char>>, key: Seq<char>) -> Option<u64> {
    if exists|i: int| #[trigger] last_with_key(ls, i, key) {
        Some(entry_value(ls[choose|i: int| #[trigger] last_with_key(ls, i, key)]))
    } else {
        None
    }
}

/// `key_value`, `0` when no line has the key.
pub open spec fn value_or_zero(ls: Seq<Seq<char>>, key: Seq<char>) -> u64 {
    match key_value(ls, key) {
        Some(v) => v,
        None => 0,
    }
}

proof fn lemma_last_with_key_unique(ls: Seq<Seq<char>>, i: int, i2: int, key: Seq<char>)
    requires
        last_with_key(ls, i, key),
        last_with_key(ls, i2, key),
    ensures
        i == i2,
{
    if i < i2 {
        assert(!has_key(ls[i2], key));
    } else if i2 < i {
        assert(!has_key(ls[i], key));
    }
}

proof fn lemma_kv_lookup(ls: Seq<Seq<char>>, key: Seq<char>)
    ensures
        kv_lookup(ls, key) == key_value(ls, key),
    decreases ls.len(),
{
    if ls.len() > 0 {
        let n = ls.len() - 1;
        let p = ls.drop_last();
        if has_key(ls[n], key) {
            assert(last_with_key(ls, n, key));
            let a = choose|i: int| #[trigger] last_with_key(ls, i, key);
            lemma_last_with_key_unique(ls, a, n, key);
        } else {
            lemma_kv_lookup(p, key);
            assert forall|i: int| #[trigger] last_with_key(ls, i, key) <==> last_with_key(p, i, key) by {
                if 0 <= i < p.len() {
                    assert(p[i] == ls[i]);
                    if last_with_key(ls, i, key) {
                        assert forall|j: int| i < j < p.len() implies !#[trigger] has_key(p[j], key) by {
                            assert(p[j] == ls[j]);
                            assert(!has_key(ls[j], key));
                        }
                    }
                    if last_with_key(p, i, key) {
                        assert forall|j: int| i < j < ls.len() implies !#[trigger] has_key(ls[j], key) by {
                            if j < n {
                                assert(p[j] == ls[j]);
                                assert(!has_key(p[j], key));
                            }
                        }
                    }
                }
            }
            if exists|i: int| #[trigger] last_with_key(ls, i, key) {
                let a = choose|i: int| #[trigger] last_with_key(ls, i, key);
                let b = choose|i: int| #[trigger] last_with_key(p, i, key);
                assert(last_with_key(p, a, key));
                lemma_last_with_key_unique(p, a, b, key);
                assert(p[a] == ls[a]);
            } else {
                if exists|i: int| #[trigger] last_with_key(p, i, key) {
                    let b = choose|i: int| #[trigger] last_with_key(p, i, key);
                    assert(last_with_key(ls, b, key));
                }
            }
        }
    }
}

/// What `parse_meminfo` gives, read key by key: each figure is the value of
/// the last line for its own key (0 without one); `available` falls back
/// to `free`, `cached` adds `SReclaimable` to `Cached` (wrapping), `used`
/// is `total - free - cached - buffers` with each step clamped at zero, and
/// the percentage is the share of `total` not available, rounded to a
/// tenth (0 when the total is 0).
pub proof fn meminfo_reads_each_key(content: Seq<char>)
    ensures
        ({
            let ls = lines(content);
            let m = meminfo(content);
            &&& m.total == value_or_zero(ls, "MemTotal"@)
            &&& m.free == value_or_zero(ls, "MemFree"@)
            &&& m.buffers == value_or_zero(ls, "Buffers"@)
            &&& m.active == value_or_zero(ls, "Active"@)
            &&& m.inactive == value_or_zero(ls, "Inactive"@)
            &&& m.available == match key_value(ls, "MemAvailable"@) {
                Some(v) => v,
                None => m.free,
            }
            &&& m.cached == vstd::wrapping::u64_specs::wrapping_add(
                value_or_zero(ls, "Cached"@),
                value_or_zero(ls, "SReclaimable"@),
            )
            &&& m.used == sat_sub(sat_sub(sat_sub(m.total, m.free), m.cached), m.buffers)
            &&& m.total == 0 ==> m.percent_tenths == 0
            &&& m.total > 0 ==> is_share_tenths(m.percent_tenths as int, sat_sub(m.total, m.available) as int, m.total as int)
        }),
{
    let ls = lines(content);
    lemma_kv_lookup(ls, "MemTotal"@);
    lemma_kv_lookup(ls, "MemFree"@);
    lemma_kv_lookup(ls, "MemAvailable"@);
    lemma_kv_lookup(ls, "Buffers"@);
    lemma_kv_lookup(ls, "Cached"@);
    lemma_kv_lookup(ls, "SReclaimable"@);
    lemma_kv_lookup(ls, "Active"@);
    lemma_kv_lookup(ls, "Inactive"@);
    let m = meminfo(content);
    if m.total > 0 {
        percent_tenths_rounds(sat_sub(m.total, m.available) as int, m.total as int);
    }
}

/// Parses the contents of `/proc/meminfo`.
pub fn parse_meminfo(content: &str) -> (m: MemInfo)
    ensures
        m == meminfo(content@),
{
    let cs = chars_of(content);
    let lr = lines_in(&cs);
    let ghost ls = range_texts(cs@, lr@);
    let k_total = chars_of("MemTotal");
    let k_free = chars_of("MemFree");
    let k_avail = chars_of("MemAvailable");
    let k_buffers = chars_of("Buffers");
    let k_cached = chars_of("Cached");
    let k_srecl = chars_of("SReclaimable");
    let k_active = chars_of("Active");
    let k_inactive = chars_of("Inactive");
    let mut total: Option<u64> = None;
    let mut free: Option<u64> = None;
    let mut avail: Option<u64> = None;
    let mut buffers: Option<u64> = None;
    let mut cached: Option<u64> = None;
    let mut srecl: Option<u64> = None;
    let mut active: Option<u64> = None;
    let mut inactive: Option<u64> = None;
    let mut i: usize = 0;
    assert(ls.take(0) == Seq::<Seq<char>>::empty());
    while i < lr.len()
        invariant
            0 <= i <= lr@.len(),
            ranges_within(lr@, 0, cs@.len() as int),
            ls == range_texts(cs@, lr@),
            ls == lines(content@),
            k_total@ == "MemTotal"@,
            k_free@ == "MemFree"@,
            k_avail@ == "MemAvailable"@,
            k_buffers@ == "Buffers"@,
            k_cached@ == "Cached"@,
            k_srecl@ == "SReclaimable"@,
            k_active@ == "Active"@,
            k_inactive@ == "Inactive"@,
            total == kv_lookup(ls.take(i as int), "MemTotal"@),
            free == kv_lookup(ls.take(i as int), "MemFree"@),
            avail == kv_lookup(ls.take(i as int), "MemAvailable"@),
            buffers == kv_lookup(ls.take(i as int), "Buffers"@),
            cached == kv_lookup(ls.take(i as int), "Cached"@),
            srecl == kv_lookup(ls.take(i as int), "SReclaimable"@),
            active == kv_lookup(ls.take(i as int), "Active"@),
            inactive == kv_lookup(ls.take(i as int), "Inactive"@),
        decreases lr@.len() - i,
    {
        let (lo, hi) = lr[i];
        assert(ls[i as int] == cs@.subrange(lo as int, hi as int));
        let e = kv_entry_in(&cs, lo, hi);
        proof {
            lemma_kv_step(ls, i as int, "MemTotal"@);
            lemma_kv_step(ls, i as int, "MemFree"@);
            lemma_kv_step(ls, i as int, "MemAvailable"@);
            lemma_kv_step(ls, i as int, "Buffers"@);
            lemma_kv_step(ls, i as int, "Cached"@);
            lemma_kv_step(ls, i as int, "SReclaimable"@);
            lemma_kv_step(ls, i as int, "Active"@);
            lemma_kv_step(ls, i as int, "Inactive"@);
        }
        total = track_kv(&cs, e, &k_total, total);
        free = track_kv(&cs, e, &k_free, free);
        avail = track_kv(&cs, e, &k_avail, avail);
        buffers = track_kv(&cs, e, &k_buffers, buffers);
        cached = track_kv(&cs, e, &k_cached, cached);
        srecl = track_kv(&cs, e, &k_srecl, srecl);
        active = track_kv(&cs, e, &k_active, active);
        inactive = track_kv(&cs, e, &k_inactive, inactive);
        i = i + 1;
    }
    assert(ls.take(lr@.len() as int) == ls);
    let g = |o: Option<u64>| -> (r: u64)
        ensures
            r == (match o {
                Some(v) => v,
                None => 0,
            }),
        {
            match o {
                Some(v) => v,
                None => 0,
            }
        };
    let total = g(total);
    let free_v = g(free);
    let available = match avail {
        Some(v) => v,
        None => free_v,
    };
    let buffers = g(buffers);
    let cached = g(cached).wrapping_add(g(srecl));
    let used = total.saturating_sub(free_v).saturating_sub(cached).saturating_sub(buffers);
    let percent_tenths = if total == 0 {
        0
    } else {
        share_tenths(total.saturating_sub(available) as u128, total as u128)
    };
    MemInfo {
        total,
        available,
        free: free_v,
        buffers,
        cached,
        active: g(active),
        inactive: g(inactive),
        used,
        percent_tenths,
    }
}

} // verus!

verus! {

/// `word_lookup` while the lines are read in order.
proof fn lemma_word_step(ls: Seq<Seq<char>>, i: int, key: Seq<char>)
    requires
        0 <= i < ls.len(),
    ensures
        word_lookup(ls.take(i + 1), key) == (if words(ls[i]).len() > 0 && words(ls[i])[0] == key {
            Some(second_u64(words(ls[i])))
        } else {
            word_lookup(ls.take(i), key)
        }),
{
    assert(ls.take(i + 1).drop_last() == ls.take(i));
    assert(ls.take(i + 1).last() == ls[i]);
}

/// Reads the lines of `content` and returns, for each key of `keys`, the
/// `word_lookup` of that key.
fn word_lookups(content: &str, k1: &Vec<char>, k2: &Vec<char>) -> (r: (Option<u64>, Option<u64>))
    ensures
        r.0 == word_lookup(lines(content@), k1@),
        r.1 == word_lookup(lines(content@), k2@),
{
    let cs = chars_of(content);
    let lr = lines_in(&cs);
    let ghost ls = range_texts(cs@, lr@);
    let mut v1: Option<u64> = None;
    let mut v2: Option<u64> = None;
    let mut i: usize = 0;
    assert(ls.take(0) == Seq::<Seq<char>>::empty());
    while i < lr.len()
        invariant
            0 <= i <= lr@.len(),
            ranges_within(lr@, 0, cs@.len() as int),
            ls == range_texts(cs@, lr@),
            ls == lines(content@),
            v1 == word_lookup(ls.take(i as int), k1@),
            v2 == word_lookup(ls.take(i as int), k2@),
        decreases lr@.len() - i,
    {
        let (lo, hi) = lr[i];
        assert(ls[i as int] == cs@.subrange(lo as int, hi as int));
        let wr = words_in(&cs, lo, hi);
        proof {
            lemma_word_step(ls, i as int, k1@);
            lemma_word_step(ls, i as int, k2@);
        }
        if wr.len() > 0 {
            assert(range_texts(cs@, wr@)[0] == cs@.subrange(wr@[0].0 as int, wr@[0].1 as int));
            if word_is(&cs, wr[0], k1) {
                v1 = Some(second_u64_in(&cs, &wr));
            }
            if word_is(&cs, wr[0], k2) {
                v2 = Some(second_u64_in(&cs, &wr));
            }
        }
        i = i + 1;
    }
    assert(ls.take(lr@.len() as int) == ls);
    (v1, v2)
}

/// Reads the `key: value kB` lines of `content` and returns the last value
/// of each of the two keys.
fn kv_lookups(content: &str, k1: &Vec<char>, k2: &Vec<char>) -> (r: (Option<u64>, Option<u64>))
    ensures
        r.0 == kv_lookup(lines(content@), k1@),
        r.1 == kv_lookup(lines(content@), k2@),
{
    let cs = chars_of(content);
    let lr = lines_in(&cs);
    let ghost ls = range_texts(cs@, lr@);
    let mut v1: Option<u64> = None;
    let mut v2: Option<u64> = None;
    let mut i: usize = 0;
    assert(ls.take(0) == Seq::<Seq<char>>::empty());
    while i < lr.len()
        invariant
            0 <= i <= lr@.len(),
            ranges_within(lr@, 0, cs@.len() as int),
            ls == range_texts(cs@, lr@),
            ls == lines(content@),
            v1 == kv_lookup(ls.take(i as int), k1@),
            v2 == kv_lookup(ls.take(i as int), k2@),
        decreases lr@.len() - i,
    {
        let (lo, hi) = lr[i];
        assert(ls[i as int] == cs@.subrange(lo as int, hi as int));
        let e = kv_entry_in(&cs, lo, hi);
        proof {
            lemma_kv_step(ls, i as int, k1@);
            lemma_kv_step(ls, i as int, k2@);
        }
        v1 = track_kv(&cs, e, k1, v1);
        v2 = track_kv(&cs, e, k2, v2);
        i = i + 1;
    }
    assert(ls.take(lr@.len() as int) == ls);
    (v1, v2)
}

/// Swap figures in bytes, following `psutil.swap_memory()` on Linux. `sin`
/// and `sout` are the cumulative bytes swapped in and out since boot.
#[derive(Debug, Clone, Copy, PartialEq, Eq, Structural)]
pub struct SwapInfo {
    pub total: u64,
    pub used: u64,
    pub free: u64,
    pub percent_tenths: u64,
    pub sin: u64,
    pub sout: u64,
}

/// `a.saturating_mul(b)`.
pub open spec fn sat_mul(a: u64, b: u64) -> u64 {
    if a * b <= u64::MAX {
        (a * b) as u64
    } else {
        u64::MAX
    }
}

/// `a.saturating_mul(b)`.
pub fn saturating_mul(a: u64, b: u64) -> (r: u64)
    ensures
        r == sat_mul(a, b),
{
    match a.checked_mul(b) {
        Some(v) => v,
        None => u64::MAX,
    }
}

/// What `/proc/meminfo` and `/proc/vmstat` say of swap: `SwapTotal` and
/// `SwapFree` in bytes, `used = total - free` clamped at zero, and the pages
/// swapped in (`pswpin`) and out (`pswpout`) times the page size.
pub open spec fn swap_info(meminfo: Seq<char>, vmstat: Seq<char>, page_size: u64) -> SwapInfo {
    let total = kv_or_zero(lines(meminfo), "SwapTotal"@);
    let free = kv_or_zero(lines(meminfo), "SwapFree"@);
    let used = sat_sub(total, free);
    let pswpin = match word_lookup(lines(vmstat), "pswpin"@) {
        Some(v) => v,
        None => 0,
    };
    let pswpout = match word_lookup(lines(vmstat), "pswpout"@) {
        Some(v) => v,
        None => 0,
    };
    SwapInfo {
        total,
        used,
        free,
        percent_tenths: if total == 0 {
            0
        } else {
            percent_tenths(used as int, total as int) as u64
        },
        sin: sat_mul(pswpin, page_size),
        sout: sat_mul(pswpout, page_size),
    }
}

/// Parses swap figures out of `/proc/meminfo` and `/proc/vmstat`.
pub fn parse_swap(meminfo: &str, vmstat: &str, page_size: u64) -> (s: SwapInfo)
    ensures
        s == swap_info(meminfo@, vmstat@, page_size),
{
    let (total, free) = kv_lookups(meminfo, &chars_of("SwapTotal"), &chars_of("SwapFree"));
    let (pin, pout) = word_lookups(vmstat, &chars_of("pswpin"), &chars_of("pswpout"));
    let total = match total {
        Some(v) => v,
        None => 0,
    };
    let free = match free {
        Some(v) => v,
        None => 0,
    };
    let pin = match pin {
        Some(v) => v,
        None => 0,
    };
    let pout = match pout {
        Some(v) => v,
        None => 0,
    };
    let used = total.saturating_sub(free);
    SwapInfo {
        total,
        used,
        free,
        percent_tenths: if total == 0 {
            0
        } else {
            share_tenths(used as u128, total as u128)
        },
        sin: saturating_mul(pin, page_size),
        sout: saturating_mul(pout, page_size),
    }
}

} // verus!

verus! {

/// Cumulative `(read_count, write_count, read_bytes, write_bytes)` of one
/// disk; the byte counts are sectors times 512.
pub type DiskIoCounters = (u64, u64, u64, u64);

/// Word `i` of `ws` as a `u64`, `0` when it is not a number.
pub open spec fn num_or_zero(ws: Seq<Seq<char>>, i: int) -> u64 {
    match parse_u64(ws[i]) {
        Some(v) => v,
        None => 0,
    }
}

/// The disk named by one `/proc/diskstats` line and its counters; lines of
/// fewer than 14 fields are skipped.
pub open spec fn disk_line(ws: Seq<Seq<char>>) -> Option<(Seq<char>, DiskIoCounters)> {
    if ws.len() < 14 {
        None
    } else {
        Some(
            (
                ws[2],
                (
                    num_or_zero(ws, 3),
                    num_or_zero(ws, 7),
                    sat_mul(num_or_zero(ws, 5), 512),
                    sat_mul(num_or_zero(ws, 9), 512),
                ),
            ),
        )
    }
}

/// The counters of every disk of the lines `ls`; a later line for the same
/// disk replaces an earlier one.
pub open spec fn disk_fold(ls: Seq<Seq<char>>) -> Map<Seq<char>, DiskIoCounters>
    decreases ls.len(),
{
    if ls.len() == 0 {
        Map::empty()
    } else {
        match disk_line(words(ls.last())) {
            Some((name, c)) => disk_fold(ls.drop_last()).insert(name, c),
            None => disk_fold(ls.drop_last()),
        }
    }
}

/// What `/proc/diskstats` holds, per disk name.
pub open spec fn diskstats(content: Seq<char>) -> Map<Seq<char>, DiskIoCounters> {
    disk_fold(lines(content))
}

/// The disk a `/proc/diskstats` line reports on, `None` for a line of
/// fewer than 14 fields.
pub open spec fn disk_of(l: Seq<char>) -> Option<Seq<char>> {
    match disk_line(words(l)) {
        Some((n, _)) => Some(n),
        None => None,
    }
}

/// The counters a `/proc/diskstats` line reports (zero for a skipped line).
pub open spec fn counters_of(l: Seq<char>) -> DiskIoCounters {
    match disk_line(words(l)) {
        Some((_, c)) => c,
        None => (0, 0, 0, 0),
    }
}

proof fn lemma_disk_fold(ls: Seq<Seq<char>>)
    ensures
        forall|name: Seq<char>| #[trigger] disk_fold(ls).contains_key(name) <==> exists|i: int|
            0 <= i < ls.len() && #[trigger] disk_of(ls[i]) == Some(name),
        forall|i: int|
            0 <= i < ls.len() && (#[trigger] disk_of(ls[i])) is Some && (forall|j: int|
                i < j < ls.len() ==> #[trigger] disk_of(ls[j]) != disk_of(ls[i])) ==> disk_fold(ls)[disk_of(ls[i])->0]
                == counters_of(ls[i]),
    decreases ls.len(),
{
    if ls.len() > 0 {
        let p = ls.drop_last();
        let n = ls.len() - 1;
        lemma_disk_fold(p);
        assert forall|i: int| 0 <= i < p.len() implies #[trigger] p[i] == ls[i] by {}
        assert forall|name: Seq<char>| #[trigger] disk_fold(ls).contains_key(name) <==> exists|i: int|
            0 <= i < ls.len() && #[trigger] disk_of(ls[i]) == Some(name) by {
            if exists|i: int| 0 <= i < ls.len() && #[trigger] disk_of(ls[i]) == Some(name) {
                let i = choose|i: int| 0 <= i < ls.len() && #[trigger] disk_of(ls[i]) == Some(name);
                if i < n {
                    assert(disk_of(p[i]) == Some(name));
                }
            }
            if disk_fold(p).contains_key(name) {
                let i = choose|i: int| 0 <= i < p.len() && #[trigger] disk_of(p[i]) == Some(name);
                assert(disk_of(ls[i]) == Some(name));
            }
            if disk_of(ls[n]) == Some(name) {
            }
        }
        assert forall|i: int|
            0 <= i < ls.len() && (#[trigger] disk_of(ls[i])) is Some && (forall|j: int|
                i < j < ls.len() ==> #[trigger] disk_of(ls[j]) != disk_of(ls[i])) implies disk_fold(ls)[disk_of(
            ls[i],
        )->0] == counters_of(ls[i]) by {
            if i < n {
                assert(disk_of(ls[n]) != disk_of(ls[i]));
                assert forall|j: int| i < j < p.len() implies #[trigger] disk_of(p[j]) != disk_of(p[i]) by {
                    assert(disk_of(ls[j]) != disk_of(ls[i]));
                }
                assert(disk_of(p[i]) is Some);
            }
        }
    }
}

/// What `parse_diskstats` gives, read line by line: a disk is present
/// exactly when some line of at least 14 fields names it (third field),
/// and its counters are those of the last such line.
pub proof fn diskstats_keeps_the_last_line_per_disk(content: Seq<char>)
    ensures
        ({
            let ls = lines(content);
            &&& forall|name: Seq<char>| #[trigger] diskstats(content).contains_key(name) <==> exists|i: int|
                0 <= i < ls.len() && #[trigger] disk_of(ls[i]) == Some(name)
            &&& forall|i: int|
                0 <= i < ls.len() && (#[trigger] disk_of(ls[i])) is Some && (forall|j: int|
                    i < j < ls.len() ==> #[trigger] disk_of(ls[j]) != disk_of(ls[i])) ==> diskstats(content)[disk_of(
                ls[i],
            )->0] == counters_of(ls[i])
        }),
{
    lemma_disk_fold(lines(content));
}

fn num_or_zero_in(cs: &Vec<char>, wr: &Vec<(usize, usize)>, i: usize) -> (r: u64)
    requires
        ranges_within(wr@, 0, cs@.len() as int),
        i < wr@.len(),
    ensures
        r == num_or_zero(range_texts(cs@, wr@), i as int),
{
    let (a, b) = wr[i];
    match parse_u64_in(cs, a, b) {
        Some(v) => v,
        None => 0,
    }
}

/// Parses the contents of `/proc/diskstats`.
pub fn parse_diskstats(content: &str) -> (m: NameMap<DiskIoCounters>)
    ensures
        m.view() == diskstats(content@),
{
    let cs = chars_of(content);
    let lr = lines_in(&cs);
    let ghost ls = range_texts(cs@, lr@);
    let mut m: NameMap<DiskIoCounters> = NameMap::new();
    let mut i: usize = 0;
    assert(ls.take(0) == Seq::<Seq<char>>::empty());
    while i < lr.len()
        invariant
            0 <= i <= lr@.len(),
            ranges_within(lr@, 0, cs@.len() as int),
            ls == range_texts(cs@, lr@),
            ls == lines(content@),
            m.view() == disk_fold(ls.take(i as int)),
        decreases lr@.len() - i,
    {
        let (lo, hi) = lr[i];
        assert(ls[i as int] == cs@.subrange(lo as int, hi as int));
        assert(ls.take(i + 1).drop_last() == ls.take(i as int));
        assert(ls.take(i + 1).last() == ls[i as int]);
        let wr = words_in(&cs, lo, hi);
        if wr.len() >= 14 {
            let (na, nb) = wr[2];
            assert(range_texts(cs@, wr@)[2] == cs@.subrange(na as int, nb as int));
            let read_count = num_or_zero_in(&cs, &wr, 3);
            let read_bytes = saturating_mul(num_or_zero_in(&cs, &wr, 5), 512);
            let write_count = num_or_zero_in(&cs, &wr, 7);
            let write_bytes = saturating_mul(num_or_zero_in(&cs, &wr, 9), 512);
            m.insert(string_of(&cs, na, nb), (read_count, write_count, read_bytes, write_bytes));
        }
        i = i + 1;
    }
    assert(ls.take(lr@.len() as int) == ls);
    m
}

/// `s` without any number of leading `"0x"` (`trim_start_matches("0x")`).
pub open spec fn strip_hex_prefix(s: Seq<char>) -> Seq<char>
    decreases s.len(),
{
    if s.len() >= 2 && s[0] == '0' && s[1] == 'x' {
        strip_hex_prefix(s.skip(2))
    } else {
        s
    }
}

/// Administrative status and link speed of one interface.
#[derive(Debug, Clone, Copy, PartialEq, Eq, Structural)]
pub struct IfaceMeta {
    pub is_up: bool,
    /// Link speed in bits per second (Mbps times 1048576), 0 when unknown.
    pub speed: u64,
    /// Per-direction byte capacity per second, 0 when the speed is unknown.
    pub bytes_speed_rate_per_sec: u64,
}

/// The link speed in Mbps that a `speed` file holds: a positive integer, or
/// `0` when it is unreadable, not a number, or not positive.
pub open spec fn link_mbps(speed: Option<Seq<char>>) -> u64 {
    match speed {
        Some(s) => match parse_i64(trim(s)) {
            Some(v) => if v > 0 {
                v as u64
            } else {
                0
            },
            None => 0,
        },
        None => 0,
    }
}

/// Whether a `flags` file has the `IFF_UP` bit set.
pub open spec fn flags_up(flags: Option<Seq<char>>) -> bool {
    match flags {
        Some(s) => match parse_u64_radix(strip_hex_prefix(trim(s)), 16) {
            Some(f) => f % 2 == 1,
            None => false,
        },
        None => false,
    }
}

/// Decimal-Mbit per-direction byte capacity: `mbps * 1e6 / 8 / 2`, with the
/// wrap-around of unchecked `u64` arithmetic on the product.
pub open spec fn capacity_of(mbps: u64) -> u64 {
    ((((mbps as nat * 1_000_000) % 0x1_0000_0000_0000_0000) / 8) / 2) as u64
}

pub fn speed_capacity_bytes_per_dir(mbps: u64) -> (r: u64)
    ensures
        r == capacity_of(mbps),
{
    mbps.wrapping_mul(1_000_000) / 8 / 2
}

/// The text of an optional string.
pub open spec fn opt_text(o: Option<&str>) -> Option<Seq<char>> {
    match o {
        Some(s) => Some(s@),
        None => None,
    }
}

fn flags_are_up(flags: Option<&str>) -> (r: bool)
    ensures
        r == flags_up(opt_text(flags)),
{
    match flags {
        Some(s) => {
            let cs = chars_of(s);
            let (a, b) = trim_in(&cs, 0, cs.len());
            assert(cs@.subrange(0, cs@.len() as int) == cs@);
            let mut a2 = a;
            while b - a2 >= 2 && cs[a2] == '0' && cs[a2 + 1] == 'x'
                invariant
                    a <= a2 <= b <= cs@.len(),
                    strip_hex_prefix(cs@.subrange(a as int, b as int)) == strip_hex_prefix(
                        cs@.subrange(a2 as int, b as int),
                    ),
                decreases b - a2,
            {
                assert(cs@.subrange(a2 as int, b as int).skip(2) == cs@.subrange(a2 + 2, b as int));
                a2 = a2 + 2;
            }
            match parse_u64_radix_in(&cs, a2, b, 16) {
                Some(f) => f % 2 == 1,
                None => false,
            }
        },
        None => false,
    }
}

fn speed_mbps(speed: Option<&str>) -> (r: u64)
    ensures
        r == link_mbps(opt_text(speed)),
{
    match speed {
        Some(s) => {
            let cs = chars_of(s);
            let (a, b) = trim_in(&cs, 0, cs.len());
            assert(cs@.subrange(0, cs@.len() as int) == cs@);
            match parse_i64_in(&cs, a, b) {
                Some(v) => if v > 0 {
                    v as u64
                } else {
                    0
                },
                None => 0,
            }
        },
        None => 0,
    }
}

/// The status of an interface from the contents of its `flags` and `speed`
/// files (`None` when a file could not be read).
pub fn iface_meta(flags: Option<&str>, speed: Option<&str>) -> (m: IfaceMeta)
    ensures
        m.is_up == flags_up(opt_text(flags)),
        m.speed == ((link_mbps(opt_text(speed)) as nat * 1_048_576) % 0x1_0000_0000_0000_0000) as u64,
        m.bytes_speed_rate_per_sec == capacity_of(link_mbps(opt_text(speed))),
{
    let is_up = flags_are_up(flags);
    let mbps = speed_mbps(speed);
    IfaceMeta {
        is_up,
        speed: mbps.wrapping_mul(1_048_576),
        bytes_speed_rate_per_sec: speed_capacity_bytes_per_dir(mbps),
    }
}

} // verus!

verus! {

/// The value of the last line of `ls` that starts with `prefix`: the rest of
/// the line, trimmed, without surrounding double quotes; empty when no line
/// has the prefix.
pub open spec fn os_value(ls: Seq<Seq<char>>, prefix: Seq<char>) -> Seq<char>
    decreases ls.len(),
{
    if ls.len() == 0 {
        seq![]
    } else {
        let l = ls.last();
        if prefix.len() <= l.len() && l.take(prefix.len() as int) == prefix {
            trim_char(trim(l.skip(prefix.len() as int)), '"')
        } else {
            os_value(ls.drop_last(), prefix)
        }
    }
}

/// `linux_distro` as `/etc/os-release` gives it: `"NAME VERSION_ID"`,
/// trimmed.
pub open spec fn os_release(content: Seq<char>) -> Seq<char> {
    let ls = lines(content);
    trim(os_value(ls, "NAME="@) + seq![' '] + os_value(ls, "VERSION_ID="@))
}

/// Parses the contents of `/etc/os-release` into the `linux_distro` string.
pub fn parse_os_release(content: &str) -> (r: String)
    ensures
        r@ == os_release(content@),
{
    let cs = chars_of(content);
    let lr = lines_in(&cs);
    let ghost ls = range_texts(cs@, lr@);
    let p_name = chars_of("NAME=");
    let p_version = chars_of("VERSION_ID=");
    let mut name: (usize, usize) = (0, 0);
    let mut version: (usize, usize) = (0, 0);
    let mut i: usize = 0;
    assert(ls.take(0) == Seq::<Seq<char>>::empty());
    assert(cs@.subrange(0, 0) == Seq::<char>::empty());
    while i < lr.len()
        invariant
            0 <= i <= lr@.len(),
            ranges_within(lr@, 0, cs@.len() as int),
            ls == range_texts(cs@, lr@),
            ls == lines(content@),
            p_name@ == "NAME="@,
            p_version@ == "VERSION_ID="@,
            name.0 <= name.1 <= cs@.len(),
            version.0 <= version.1 <= cs@.len(),
            cs@.subrange(name.0 as int, name.1 as int) == os_value(ls.take(i as int), "NAME="@),
            cs@.subrange(version.0 as int, version.1 as int) == os_value(
                ls.take(i as int),
                "VERSION_ID="@,
            ),
        decreases lr@.len() - i,
    {
        let (lo, hi) = lr[i];
        let ghost l = cs@.subrange(lo as int, hi as int);
        assert(ls[i as int] == l);
        assert(ls.take(i + 1).drop_last() == ls.take(i as int));
        assert(ls.take(i + 1).last() == ls[i as int]);
        if starts_with_in(&cs, lo, hi, &p_name) {
            let (a, b) = trim_in(&cs, lo + p_name.len(), hi);
            assert(l.take(p_name@.len() as int) == cs@.subrange(lo as int, lo + p_name@.len()));
            assert(l.skip(p_name@.len() as int) == cs@.subrange(lo + p_name@.len(), hi as int));
            name = trim_char_in(&cs, a, b, '"');
            assert(!(p_version@.len() <= l.len() && l.take(p_version@.len() as int) == p_version@))
                by {
                reveal_strlit("NAME=");
                reveal_strlit("VERSION_ID=");
                if p_version@.len() <= l.len() && l.take(p_version@.len() as int) == p_version@ {
                    assert(l[0] == p_version@[0]);
                    assert(l[0] == p_name@[0]);
                }
            }
        } else if starts_with_in(&cs, lo, hi, &p_version) {
            assert(!(p_name@.len() <= l.len() && l.take(p_name@.len() as int) == p_name@)) by {
                if p_name@.len() <= l.len() {
                    assert(l.take(p_name@.len() as int) == cs@.subrange(lo as int, lo + p_name@.len()));
                }
            }
            let (a, b) = trim_in(&cs, lo + p_version.len(), hi);
            assert(l.take(p_version@.len() as int) == cs@.subrange(lo as int, lo + p_version@.len()));
            assert(l.skip(p_version@.len() as int) == cs@.subrange(lo + p_version@.len(), hi as int));
            version = trim_char_in(&cs, a, b, '"');
        } else {
            assert(!(p_name@.len() <= l.len() && l.take(p_name@.len() as int) == p_name@)) by {
                if p_name@.len() <= l.len() {
                    assert(l.take(p_name@.len() as int) == cs@.subrange(lo as int, lo + p_name@.len()));
                }
            }
            assert(!(p_version@.len() <= l.len() && l.take(p_version@.len() as int) == p_version@))
                by {
                if p_version@.len() <= l.len() {
                    assert(l.take(p_version@.len() as int) == cs@.subrange(
                        lo as int,
                        lo + p_version@.len(),
                    ));
                }
            }
        }
        i = i + 1;
    }
    assert(ls.take(lr@.len() as int) == ls);
    let mut joined: Vec<char> = Vec::new();
    let mut k = name.0;
    while k < name.1
        invariant
            name.0 <= k <= name.1 <= cs@.len(),
            joined@ == cs@.subrange(name.0 as int, k as int),
        decreases name.1 - k,
    {
        joined.push(cs[k]);
        assert(cs@.subrange(name.0 as int, k + 1) == cs@.subrange(name.0 as int, k as int).push(cs@[k as int]));
        k = k + 1;
    }
    joined.push(' ');
    let ghost head = joined@;
    assert(head == cs@.subrange(name.0 as int, name.1 as int) + seq![' ']);
    let mut k = version.0;
    while k < version.1
        invariant
            version.0 <= k <= version.1 <= cs@.len(),
            joined@ == head + cs@.subrange(version.0 as int, k as int),
        decreases version.1 - k,
    {
        joined.push(cs[k]);
        assert(cs@.subrange(version.0 as int, k + 1) == cs@.subrange(version.0 as int, k as int).push(
            cs@[k as int],
        ));
        k = k + 1;
    }
    assert(joined@ == cs@.subrange(name.0 as int, name.1 as int) + seq![' '] + cs@.subrange(
        version.0 as int,
        version.1 as int,
    ));
    let (a, b) = trim_in(&joined, 0, joined.len());
    assert(joined@.subrange(0, joined@.len() as int) == joined@);
    string_of(&joined, a, b)
}

} // verus!

verus! {

/// Per-category CPU percentages between two cumulative samples, each in
/// tenths of a percent (psutil/Glances semantics: the denominator is the
/// total jiffy delta, guest time is taken out of user and nice time, and
/// `total` is everything except idle).
#[derive(Debug, Clone, Copy, PartialEq, Eq, Structural)]
pub struct CpuPercents {
    pub total: u128,
    pub user: u128,
    pub nice: u128,
    pub system: u128,
    pub idle: u128,
    pub iowait: u128,
    pub irq: u128,
    pub steal: u128,
    pub guest: u128,
}

/// All categories at zero.
pub open spec fn zero_percents() -> CpuPercents {
    CpuPercents { total: 0, user: 0, nice: 0, system: 0, idle: 0, iowait: 0, irq: 0, steal: 0, guest: 0 }
}

impl Default for CpuPercents {
    fn default() -> (p: Self)
        ensures
            p == zero_percents(),
    {
        CpuPercents { total: 0, user: 0, nice: 0, system: 0, idle: 0, iowait: 0, irq: 0, steal: 0, guest: 0 }
    }
}

/// The jiffy delta over which the percentages are taken.
pub open spec fn jiffy_total(prev: CpuSample, cur: CpuSample) -> int {
    sat_sub(cur.user, prev.user) + sat_sub(cur.nice, prev.nice) + sat_sub(cur.system, prev.system)
        + sat_sub(cur.idle, prev.idle) + sat_sub(cur.iowait, prev.iowait) + sat_sub(cur.irq, prev.irq)
        + sat_sub(cur.softirq, prev.softirq) + sat_sub(cur.steal, prev.steal)
}

/// The percentages between `prev` and `cur`; all zero when no jiffy passed.
pub open spec fn percents_between(prev: CpuSample, cur: CpuSample) -> CpuPercents {
    let t = jiffy_total(prev, cur);
    let idle = sat_sub(cur.idle, prev.idle);
    let guest = sat_sub(cur.guest, prev.guest);
    let guest_nice = sat_sub(cur.guest_nice, prev.guest_nice);
    if t == 0 {
        zero_percents()
    } else {
        CpuPercents {
            total: percent_tenths(t - idle, t) as u128,
            user: percent_tenths(sat_sub(sat_sub(cur.user, prev.user), guest) as int, t) as u128,
            nice: percent_tenths(sat_sub(sat_sub(cur.nice, prev.nice), guest_nice) as int, t) as u128,
            system: percent_tenths(sat_sub(cur.system, prev.system) as int, t) as u128,
            idle: percent_tenths(idle as int, t) as u128,
            iowait: percent_tenths(sat_sub(cur.iowait, prev.iowait) as int, t) as u128,
            irq: percent_tenths(sat_sub(cur.irq, prev.irq) as int, t) as u128,
            steal: percent_tenths(sat_sub(cur.steal, prev.steal) as int, t) as u128,
            guest: percent_tenths(guest as int, t) as u128,
        }
    }
}

/// `percent_tenths(num, den)` for any count over a jiffy total.
fn tenths_of(num: u64, den: u128) -> (r: u128)
    requires
        0 < den <= 0x10_0000_0000_0000_0000,
    ensures
        r == percent_tenths(num as int, den as int),
{
    (2000 * (num as u128) + den) / (2 * den)
}

/// Per-category percentages between two cumulative `/proc/stat` samples.
pub fn cpu_percents(prev: &CpuSample, cur: &CpuSample) -> (p: CpuPercents)
    ensures
        p == percents_between(*prev, *cur),
{
    let user = cur.user.saturating_sub(prev.user);
    let nice = cur.nice.saturating_sub(prev.nice);
    let system = cur.system.saturating_sub(prev.system);
    let idle = cur.idle.saturating_sub(prev.idle);
    let iowait = cur.iowait.saturating_sub(prev.iowait);
    let irq = cur.irq.saturating_sub(prev.irq);
    let softirq = cur.softirq.saturating_sub(prev.softirq);
    let steal = cur.steal.saturating_sub(prev.steal);
    let guest = cur.guest.saturating_sub(prev.guest);
    let guest_nice = cur.guest_nice.saturating_sub(prev.guest_nice);
    let t: u128 = user as u128 + nice as u128 + system as u128 + idle as u128 + iowait as u128
        + irq as u128 + softirq as u128 + steal as u128;
    if t == 0 {
        return CpuPercents::default();
    }
    let busy = t - idle as u128;
    CpuPercents {
        total: (2000 * busy + t) / (2 * t),
        user: tenths_of(user.saturating_sub(guest), t),
        nice: tenths_of(nice.saturating_sub(guest_nice), t),
        system: tenths_of(system, t),
        idle: tenths_of(idle, t),
        iowait: tenths_of(iowait, t),
        irq: tenths_of(irq, t),
        steal: tenths_of(steal, t),
        guest: tenths_of(guest, t),
    }
}

/// Identical samples give all-zero percentages.
pub proof fn identical_samples_are_zero(s: CpuSample)
    ensures
        percents_between(s, s) == zero_percents(),
{
}

/// Each percentage is its own category's share of the interval: with `t`
/// the jiffies that passed in the eight counted categories (`user`, `nice`,
/// `system`, `idle`, `iowait`, `irq`, `softirq`, `steal`), each category's
/// figure is its own jiffy delta over `t` as a percentage in tenths,
/// rounded half up (`user` and `nice` without the guest time they
/// include, `total` all but `idle`); a counter that went back counts as no
/// jiffy, and with no jiffy at all every figure is 0.
pub proof fn cpu_shares_follow_their_own_jiffies(prev: CpuSample, cur: CpuSample)
    ensures
        ({
            let t = sat_sub(cur.user, prev.user) + sat_sub(cur.nice, prev.nice) + sat_sub(cur.system, prev.system)
                + sat_sub(cur.idle, prev.idle) + sat_sub(cur.iowait, prev.iowait) + sat_sub(cur.irq, prev.irq)
                + sat_sub(cur.softirq, prev.softirq) + sat_sub(cur.steal, prev.steal);
            let p = percents_between(prev, cur);
            &&& t == 0 ==> p.total == 0 && p.user == 0 && p.nice == 0 && p.system == 0 && p.idle == 0 && p.iowait == 0
                && p.irq == 0 && p.steal == 0 && p.guest == 0
            &&& t > 0 ==> {
                &&& is_share_tenths(p.total as int, t - sat_sub(cur.idle, prev.idle), t)
                &&& is_share_tenths(
                    p.user as int,
                    sat_sub(sat_sub(cur.user, prev.user), sat_sub(cur.guest, prev.guest)) as int,
                    t,
                )
                &&& is_share_tenths(
                    p.nice as int,
                    sat_sub(sat_sub(cur.nice, prev.nice), sat_sub(cur.guest_nice, prev.guest_nice)) as int,
                    t,
                )
                &&& is_share_tenths(p.system as int, sat_sub(cur.system, prev.system) as int, t)
                &&& is_share_tenths(p.idle as int, sat_sub(cur.idle, prev.idle) as int, t)
                &&& is_share_tenths(p.iowait as int, sat_sub(cur.iowait, prev.iowait) as int, t)
                &&& is_share_tenths(p.irq as int, sat_sub(cur.irq, prev.irq) as int, t)
                &&& is_share_tenths(p.steal as int, sat_sub(cur.steal, prev.steal) as int, t)
                &&& is_share_tenths(p.guest as int, sat_sub(cur.guest, prev.guest) as int, t)
            }
        }),
{
    let t = jiffy_total(prev, cur);
    if t > 0 {
        percent_tenths_rounds(t - sat_sub(cur.idle, prev.idle), t);
        percent_tenths_rounds(sat_sub(sat_sub(cur.user, prev.user), sat_sub(cur.guest, prev.guest)) as int, t);
        percent_tenths_rounds(sat_sub(sat_sub(cur.nice, prev.nice), sat_sub(cur.guest_nice, prev.guest_nice)) as int, t);
        percent_tenths_rounds(sat_sub(cur.system, prev.system) as int, t);
        percent_tenths_rounds(sat_sub(cur.idle, prev.idle) as int, t);
        percent_tenths_rounds(sat_sub(cur.iowait, prev.iowait) as int, t);
        percent_tenths_rounds(sat_sub(cur.irq, prev.irq) as int, t);
        percent_tenths_rounds(sat_sub(cur.steal, prev.steal) as int, t);
        percent_tenths_rounds(sat_sub(cur.guest, prev.guest) as int, t);
    }
}

/// Over any interval in which some jiffy passed, the busy share and the idle
/// share add up to 100% give or take one rounding step: 100.0 or 100.1.
pub proof fn busy_and_idle_make_one_hundred(prev: CpuSample, cur: CpuSample)
    requires
        jiffy_total(prev, cur) > 0,
    ensures
        1000 <= percents_between(prev, cur).total + percents_between(prev, cur).idle <= 1001,
{
    let t = jiffy_total(prev, cur);
    let i = sat_sub(cur.idle, prev.idle) as int;
    assert(0 <= i <= t);
    let a = 2000 * (t - i) + t;
    let b = 2000 * i + t;
    let d = 2 * t;
    assert(a / d + b / d >= 1000 && a / d + b / d <= 1001) by (nonlinear_arith)
        requires
            d > 0,
            a + b == 1001 * d,
            a >= 0,
            b >= 0,
    ;
}

} // verus!
