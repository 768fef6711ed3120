//! Reading the statistics pages of the system from the text of the kernel's
//! files (`/proc/stat`, `/proc/vmstat`, `/proc/meminfo`, `/proc/swaps`,
//! `/proc/cpuinfo`, `/proc/mounts`, `/etc/os-release`) and of `df -BM /`.
//! Reading the files and running `df` is the caller's work.

use vstd::prelude::*;
use crate::filter::{lowercase, to_lowercase};
use crate::procinfo::{ProcessInfo, ProcessView, views};
use crate::text::{
    chars_of, contains, contains_exec, lines, lines_of, number_or_zero, owned, parse_u64_range,
    parse_unsigned, starts_with, str_eq, string_of, strings_view, strip_char_end, trim, trim_bounds,
    trim_char, trim_char_bounds, words, words_of, split_on, split_bounds,
};

verus! {

// ---------------------------------------------------------------------------
// Lines of "key value" pairs
// ---------------------------------------------------------------------------

/// The number in the second word of `line`; 0 when there is none or it is
/// no `u64` (`split_whitespace().nth(1).unwrap_or("0").parse().unwrap_or(0)`).
pub open spec fn second_number(line: Seq<char>) -> nat {
    let w = words(line);
    if w.len() > 1 {
        number_or_zero(w[1])
    } else {
        0
    }
}

/// The first word of `line` is `key`.
pub open spec fn keyed(line: Seq<char>, key: Seq<char>) -> bool {
    let w = words(line);
    w.len() > 0 && w[0] == key
}

/// The number on the last line of `ls` whose first word is `key` (0 when
/// there is none).
pub open spec fn keyed_value(ls: Seq<Seq<char>>, key: Seq<char>) -> nat
    decreases ls.len(),
{
    if ls.len() == 0 {
        0
    } else if keyed(ls.last(), key) {
        second_number(ls.last())
    } else {
        keyed_value(ls.drop_last(), key)
    }
}

/// The number on the last line of `ls` that starts with `prefix` (0 when
/// there is none).
pub open spec fn prefixed_value(ls: Seq<Seq<char>>, prefix: Seq<char>) -> nat
    decreases ls.len(),
{
    if ls.len() == 0 {
        0
    } else if starts_with(ls.last(), prefix) {
        second_number(ls.last())
    } else {
        prefixed_value(ls.drop_last(), prefix)
    }
}

fn second_number_of(line: &str) -> (res: u64)
    ensures
        res == second_number(line@),
{
    let w = words_of(line);
    assert(strings_view(w@).len() == w.len());
    if w.len() > 1 {
        assert(strings_view(w@)[1] == w@[1]@);
        let v = chars_of(w[1].as_str());
        assert(v@.subrange(0, v.len() as int) =~= w@[1]@);
        match parse_u64_range(&v, 0, v.len()) {
            Some(n) => n,
            None => 0,
        }
    } else {
        0
    }
}

fn is_keyed(line: &str, key: &str) -> (res: bool)
    ensures
        res == keyed(line@, key@),
{
    let w = words_of(line);
    assert(strings_view(w@).len() == w.len());
    if w.len() > 0 {
        assert(strings_view(w@)[0] == w@[0]@);
        str_eq(w[0].as_str(), key)
    } else {
        false
    }
}

fn has_prefix(line: &str, prefix: &str) -> (res: bool)
    ensures
        res == starts_with(line@, prefix@),
{
    let v = chars_of(line);
    let p = chars_of(prefix);
    p.len() <= v.len() && crate::text::range_eq(&v, 0, p.len(), &p)
}

/// The value of `key` among `ls` (see `keyed_value` and `prefixed_value`).
fn value_of(ls: &Vec<String>, key: &str, by_prefix: bool) -> (res: u64)
    ensures
        res == (if by_prefix {
            prefixed_value(strings_view(ls@), key@)
        } else {
            keyed_value(strings_view(ls@), key@)
        }),
{
    let ghost lv = strings_view(ls@);
    let mut i = ls.len();
    assert(lv.take(i as int) =~= lv);
    while i > 0
        invariant
            i <= ls.len(),
            lv == strings_view(ls@),
            (if by_prefix {
                prefixed_value(lv, key@)
            } else {
                keyed_value(lv, key@)
            }) == (if by_prefix {
                prefixed_value(lv.take(i as int), key@)
            } else {
                keyed_value(lv.take(i as int), key@)
            }),
        decreases i,
    {
        let line = ls[i - 1].as_str();
        assert(lv.take(i as int).last() == ls@[i - 1]@);
        assert(lv.take(i as int).drop_last() =~= lv.take(i - 1));
        let hit = if by_prefix {
            has_prefix(line, key)
        } else {
            is_keyed(line, key)
        };
        if hit {
            return second_number_of(line);
        }
        i -= 1;
    }
    0
}

// ---------------------------------------------------------------------------
// /proc/stat and /proc/vmstat
// ---------------------------------------------------------------------------

/// Counters of `/proc/stat`.
#[derive(Clone, Copy, Debug, PartialEq, Eq, Structural)]
pub struct CpuStats {
    pub context_switches: u64,
    pub processes: u64,
    pub procs_running: u64,
    pub procs_blocked: u64,
    pub interrupts: u64,
}

/// The counters of `/proc/stat` whose text is `stat`.
pub fn parse_cpu_stats(stat: &str) -> (res: CpuStats)
    ensures
        res.context_switches == keyed_value(lines(stat@), "ctxt"@),
        res.processes == keyed_value(lines(stat@), "processes"@),
        res.procs_running == keyed_value(lines(stat@), "procs_running"@),
        res.procs_blocked == keyed_value(lines(stat@), "procs_blocked"@),
        res.interrupts == keyed_value(lines(stat@), "intr"@),
{
    let ls = lines_of(stat);
    CpuStats {
        context_switches: value_of(&ls, "ctxt", false),
        processes: value_of(&ls, "processes", false),
        procs_running: value_of(&ls, "procs_running", false),
        procs_blocked: value_of(&ls, "procs_blocked", false),
        interrupts: value_of(&ls, "intr", false),
    }
}

/// The words of `ws` that are `u64` numbers, as numbers, in order.
pub open spec fn numbers(ws: Seq<Seq<char>>) -> Seq<nat>
    decreases ws.len(),
{
    if ws.len() == 0 {
        seq![]
    } else {
        let r = numbers(ws.drop_last());
        match parse_unsigned(ws.last(), u64::MAX as nat) {
            Some(n) => r.push(n),
            None => r,
        }
    }
}

/// The I/O wait time on the first line of `/proc/stat`: the fifth number
/// after the first word, when there are at least six.
pub open spec fn iowait_of(stat: Seq<char>) -> nat {
    let ls = lines(stat);
    if ls.len() == 0 {
        0
    } else {
        let vals = numbers_after_first(ls[0]);
        if vals.len() >= 6 {
            vals[4]
        } else {
            0
        }
    }
}

/// Counters of `/proc/vmstat`, with the I/O wait time of `/proc/stat`.
#[derive(Clone, Copy, Debug, PartialEq, Eq, Structural)]
pub struct VmStats {
    pub page_faults: u64,
    pub swap_in: u64,
    pub swap_out: u64,
    pub io_wait: u64,
}

/// The numbers among the words of a line after its first word.
pub open spec fn numbers_after_first(line: Seq<char>) -> Seq<nat> {
    let w = words(line);
    if w.len() > 0 {
        numbers(w.skip(1))
    } else {
        seq![]
    }
}

fn numbers_after_first_of(line: &str) -> (res: Vec<u64>)
    ensures
        res@.map_values(|n: u64| n as nat) == numbers_after_first(line@),
{
    let w = words_of(line);
    let ghost wv = strings_view(w@);
    let mut vals: Vec<u64> = Vec::new();
    assert(vals@.map_values(|n: u64| n as nat) =~= Seq::<nat>::empty());
    if w.len() == 0 {
        return vals;
    }
    let mut i: usize = 1;
    assert(wv.subrange(1, 1) =~= Seq::<Seq<char>>::empty());
    while i < w.len()
        invariant
            1 <= i <= w.len(),
            wv == strings_view(w@),
            wv.len() == w.len(),
            vals@.map_values(|n: u64| n as nat) == numbers(wv.subrange(1, i as int)),
        decreases w.len() - i,
    {
        let v = chars_of(w[i].as_str());
        assert(v@.subrange(0, v.len() as int) =~= w@[i as int]@);
        assert(wv[i as int] == w@[i as int]@);
        assert(wv.subrange(1, i + 1).drop_last() =~= wv.subrange(1, i as int));
        assert(wv.subrange(1, i + 1).last() == wv[i as int]);
        match parse_u64_range(&v, 0, v.len()) {
            Some(n) => {
                vals.push(n);
                assert(vals@.map_values(|n: u64| n as nat) =~= numbers(wv.subrange(1, i as int)).push(
                    n as nat,
                ));
            },
            None => {},
        }
        i += 1;
    }
    assert(wv.subrange(1, w.len() as int) =~= wv.skip(1));
    vals
}

fn iowait_exec(stat: &Vec<String>) -> (res: u64)
    ensures
        res == (if stat.len() == 0 {
            0
        } else {
            let vals = numbers_after_first(stat@[0]@);
            if vals.len() >= 6 {
                vals[4]
            } else {
                0
            }
        }),
{
    if stat.len() == 0 {
        return 0;
    }
    let vals = numbers_after_first_of(stat[0].as_str());
    if vals.len() >= 6 {
        assert(vals@.map_values(|n: u64| n as nat)[4] == vals@[4] as nat);
        vals[4]
    } else {
        0
    }
}

/// The counters of `/proc/vmstat` whose text is `vmstat`, with the I/O wait
/// time of `/proc/stat` whose text is `stat`.
pub fn parse_vm_stats(vmstat: &str, stat: &str) -> (res: VmStats)
    ensures
        res.page_faults == keyed_value(lines(vmstat@), "pgfault"@),
        res.swap_in == keyed_value(lines(vmstat@), "pswpin"@),
        res.swap_out == keyed_value(lines(vmstat@), "pswpout"@),
        res.io_wait == iowait_of(stat@),
{
    let ls = lines_of(vmstat);
    let st = lines_of(stat);
    assert(strings_view(st@).len() == st.len());
    if st.len() > 0 {
        assert(strings_view(st@)[0] == st@[0]@);
    }
    VmStats {
        page_faults: value_of(&ls, "pgfault", false),
        swap_in: value_of(&ls, "pswpin", false),
        swap_out: value_of(&ls, "pswpout", false),
        io_wait: iowait_exec(&st),
    }
}

/// The sum of `s`.
pub open spec fn sum_of(s: Seq<nat>) -> nat
    decreases s.len(),
{
    if s.len() == 0 {
        0
    } else {
        sum_of(s.drop_last()) + s.last()
    }
}

/// The tick counts of a `cpu` line of `/proc/stat`, `(idle, total)`: the
/// fourth of the numbers after its first word, and the sum of them all;
/// `None` when there are fewer than four.
pub open spec fn ticks_of(line: Seq<char>) -> Option<(nat, nat)> {
    let vals = numbers_after_first(line);
    if vals.len() >= 4 {
        Some((vals[3], sum_of(vals)))
    } else {
        None
    }
}

/// The tick counts of a `cpu` line of `/proc/stat` (see `ticks_of`), from
/// which the caller works out how busy the processor was; `None` also when
/// the total does not fit in a `u64`.
pub fn cpu_ticks(line: &str) -> (res: Option<(u64, u64)>)
    ensures
        match res {
            Some((idle, total)) => ticks_of(line@) == Some((idle as nat, total as nat)),
            None => ticks_of(line@) is None || ticks_of(line@).unwrap().1 > u64::MAX,
        },
{
    let vals = numbers_after_first_of(line);
    let ghost nv = vals@.map_values(|n: u64| n as nat);
    if vals.len() < 4 {
        return None;
    }
    let mut total: u64 = 0;
    let mut i: usize = 0;
    assert(nv.take(0) =~= Seq::<nat>::empty());
    while i < vals.len()
        invariant
            i <= vals.len(),
            vals.len() >= 4,
            nv == vals@.map_values(|n: u64| n as nat),
            nv == numbers_after_first(line@),
            total == sum_of(nv.take(i as int)),
        decreases vals.len() - i,
    {
        assert(nv.take(i + 1).drop_last() =~= nv.take(i as int));
        assert(nv.take(i + 1).last() == vals@[i as int] as nat);
        if total > u64::MAX - vals[i] {
            proof {
                lemma_sum_prefix(nv, i + 1);
            }
            return None;
        }
        total = total + vals[i];
        i += 1;
    }
    assert(nv.take(vals.len() as int) =~= nv);
    assert(nv[3] == vals@[3] as nat);
    Some((vals[3], total))
}

/// A prefix of a sequence of naturals sums to no more than the whole.
proof fn lemma_sum_prefix(s: Seq<nat>, k: int)
    requires
        0 <= k <= s.len(),
    ensures
        sum_of(s.take(k)) <= sum_of(s),
    decreases s.len(),
{
    if k < s.len() {
        assert(s.drop_last().take(k) =~= s.take(k));
        lemma_sum_prefix(s.drop_last(), k);
    } else {
        assert(s.take(k) =~= s);
    }
}


// ---------------------------------------------------------------------------
// /proc/meminfo and /proc/swaps
// ---------------------------------------------------------------------------

/// Memory figures in KiB: `cached` counts the page cache and the buffers.
#[derive(Clone, Copy, Debug, PartialEq, Eq, Structural)]
pub struct MemInfo {
    pub total: u64,
    pub used: u64,
    pub free: u64,
    pub cached: u64,
    pub available: u64,
}

pub open spec fn mem_total(t: Seq<char>) -> nat {
    prefixed_value(lines(t), "MemTotal:"@)
}

pub open spec fn mem_free(t: Seq<char>) -> nat {
    prefixed_value(lines(t), "MemFree:"@)
}

pub open spec fn mem_cached(t: Seq<char>) -> nat {
    prefixed_value(lines(t), "Cached:"@)
}

pub open spec fn mem_buffers(t: Seq<char>) -> nat {
    prefixed_value(lines(t), "Buffers:"@)
}

pub open spec fn mem_available(t: Seq<char>) -> nat {
    prefixed_value(lines(t), "MemAvailable:"@)
}

/// The figures of `/proc/meminfo` stay within `u64` arithmetic: the
/// available memory (or, without it, the free, cached and buffer memory)
/// does not exceed the total, and the cache and buffers add up in a `u64`.
pub open spec fn meminfo_fits(t: Seq<char>) -> bool {
    &&& mem_cached(t) + mem_buffers(t) <= u64::MAX
    &&& if mem_available(t) > 0 {
        mem_available(t) <= mem_total(t)
    } else {
        mem_free(t) + mem_cached(t) + mem_buffers(t) <= mem_total(t)
    }
}

/// The used memory: the total less the available memory, or, where that is
/// not given, less the free, cached and buffer memory.
pub open spec fn mem_used(t: Seq<char>) -> int {
    if mem_available(t) > 0 {
        mem_total(t) - mem_available(t)
    } else {
        mem_total(t) - mem_free(t) - mem_cached(t) - mem_buffers(t)
    }
}

/// The figures of `/proc/meminfo` whose text is `meminfo`; `None` exactly
/// where they do not fit `u64` arithmetic (see `meminfo_fits`).
pub fn try_parse_meminfo(meminfo: &str) -> (res: Option<MemInfo>)
    ensures
        res is Some <==> meminfo_fits(meminfo@),
        res matches Some(m) ==> {
            &&& m.total == mem_total(meminfo@)
            &&& m.used == mem_used(meminfo@)
            &&& m.free == mem_free(meminfo@)
            &&& m.cached == mem_cached(meminfo@) + mem_buffers(meminfo@)
            &&& m.available == mem_available(meminfo@)
        },
{
    let ls = lines_of(meminfo);
    let total = value_of(&ls, "MemTotal:", true);
    let free = value_of(&ls, "MemFree:", true);
    let cached = value_of(&ls, "Cached:", true);
    let buffers = value_of(&ls, "Buffers:", true);
    let available = value_of(&ls, "MemAvailable:", true);
    if cached > u64::MAX - buffers {
        return None;
    }
    let used = if available > 0 {
        if available > total {
            return None;
        }
        total - available
    } else {
        if free > total || cached > total - free || buffers > total - free - cached {
            return None;
        }
        total - free - cached - buffers
    };
    Some(MemInfo { total, used, free, cached: cached + buffers, available })
}

/// The figures of `/proc/meminfo` whose text is `meminfo`.
pub fn parse_meminfo(meminfo: &str) -> (res: MemInfo)
    requires
        meminfo_fits(meminfo@),
    ensures
        res.total == mem_total(meminfo@),
        res.used == mem_used(meminfo@),
        res.free == mem_free(meminfo@),
        res.cached == mem_cached(meminfo@) + mem_buffers(meminfo@),
        res.available == mem_available(meminfo@),
{
    match try_parse_meminfo(meminfo) {
        Some(m) => m,
        None => {
            assert(false);
            MemInfo { total: 0, used: 0, free: 0, cached: 0, available: 0 }
        },
    }
}

/// The swap space in MiB, `(used, total)`, from the first swap area listed
/// in `/proc/swaps` (the line after the header): its fourth and third
/// columns; `(0, 0)` when that line is missing or they are no numbers.
pub open spec fn swap_of(swaps: Seq<char>) -> (nat, nat) {
    let ls = lines(swaps);
    if ls.len() > 1 {
        let w = words(ls[1]);
        if w.len() >= 4 {
            match (parse_unsigned(w[2], u64::MAX as nat), parse_unsigned(w[3], u64::MAX as nat)) {
                (Some(total), Some(used)) => (used / 1024, total / 1024),
                _ => (0, 0),
            }
        } else {
            (0, 0)
        }
    } else {
        (0, 0)
    }
}

fn parse_u64_str(s: &str) -> (res: Option<u64>)
    ensures
        res == (match parse_unsigned(s@, u64::MAX as nat) {
            Some(n) => Some(n as u64),
            None => None::<u64>,
        }),
{
    let v = chars_of(s);
    assert(v@.subrange(0, v.len() as int) =~= s@);
    parse_u64_range(&v, 0, v.len())
}

/// The swap space of `/proc/swaps` whose text is `swaps` (see `swap_of`).
pub fn parse_swaps(swaps: &str) -> (res: (u64, u64))
    ensures
        (res.0 as nat, res.1 as nat) == swap_of(swaps@),
{
    let ls = lines_of(swaps);
    assert(strings_view(ls@).len() == ls.len());
    if ls.len() > 1 {
        assert(strings_view(ls@)[1] == ls@[1]@);
        let w = words_of(ls[1].as_str());
        assert(strings_view(w@).len() == w.len());
        if w.len() >= 4 {
            assert(strings_view(w@)[2] == w@[2]@ && strings_view(w@)[3] == w@[3]@);
            match (parse_u64_str(w[2].as_str()), parse_u64_str(w[3].as_str())) {
                (Some(total), Some(used)) => (used / 1024, total / 1024),
                _ => (0, 0),
            }
        } else {
            (0, 0)
        }
    } else {
        (0, 0)
    }
}

// ---------------------------------------------------------------------------
// /proc/cpuinfo, /etc/os-release, /proc/mounts, df
// ---------------------------------------------------------------------------

/// The number of lines of `ls` that start with `prefix`.
pub open spec fn count_prefixed(ls: Seq<Seq<char>>, prefix: Seq<char>) -> nat
    decreases ls.len(),
{
    if ls.len() == 0 {
        0
    } else {
        count_prefixed(ls.drop_last(), prefix) + if starts_with(ls.last(), prefix) {
            1nat
        } else {
            0nat
        }
    }
}

/// The number of processors that `/proc/cpuinfo` lists: its lines that
/// start with `processor`.
pub fn cpu_count_of(cpuinfo: &str) -> (res: usize)
    ensures
        res == count_prefixed(lines(cpuinfo@), "processor"@),
{
    let ls = lines_of(cpuinfo);
    let ghost lv = strings_view(ls@);
    let mut n: usize = 0;
    let mut i: usize = 0;
    assert(lv.take(0) =~= Seq::<Seq<char>>::empty());
    while i < ls.len()
        invariant
            i <= ls.len(),
            lv == strings_view(ls@),
            n == count_prefixed(lv.take(i as int), "processor"@),
            n <= i,
        decreases ls.len() - i,
    {
        assert(lv.take(i + 1).drop_last() =~= lv.take(i as int));
        assert(lv.take(i + 1).last() == ls@[i as int]@);
        if has_prefix(ls[i].as_str(), "processor") {
            n += 1;
        }
        i += 1;
    }
    assert(lv.take(ls.len() as int) =~= lv);
    n
}

/// The last line of `ls` that starts with `prefix`, if there is one.
pub open spec fn last_starting(ls: Seq<Seq<char>>, prefix: Seq<char>) -> Option<Seq<char>>
    decreases ls.len(),
{
    if ls.len() == 0 {
        None
    } else if starts_with(ls.last(), prefix) {
        Some(ls.last())
    } else {
        last_starting(ls.drop_last(), prefix)
    }
}

/// The text of `line` between its first and second `:`, trimmed; `default`,
/// trimmed, when `line` has no `:`.
pub open spec fn colon_field(line: Seq<char>, default: Seq<char>) -> Seq<char> {
    let parts = split_on(line, ':');
    trim(
        if parts.len() > 1 {
            parts[1]
        } else {
            default
        },
    )
}

/// What `/proc/cpuinfo` says of the processor, `(model, clock, cache)`: the
/// fields of its last `model name`, `cpu MHz` and `cache size` lines. The
/// clock is given as written (the caller reads it as a float, `0` where the
/// line has no `:`) and is `None` when no line gives it; the model and the
/// cache are empty when no line gives them.
pub open spec fn cpu_details_of(text: Seq<char>) -> (Seq<char>, Option<Seq<char>>, Seq<char>) {
    let ls = lines(text);
    (
        match last_starting(ls, "model name"@) {
            Some(l) => colon_field(l, seq![]),
            None => seq![],
        },
        match last_starting(ls, "cpu MHz"@) {
            Some(l) => Some(colon_field(l, "0"@)),
            None => None,
        },
        match last_starting(ls, "cache size"@) {
            Some(l) => colon_field(l, seq![]),
            None => seq![],
        },
    )
}

/// The index in `ls` of the last line that starts with `prefix`.
fn last_starting_index(ls: &Vec<String>, prefix: &str) -> (res: Option<usize>)
    ensures
        match res {
            Some(k) => k < ls.len() && last_starting(strings_view(ls@), prefix@) == Some(
                ls@[k as int]@,
            ),
            None => last_starting(strings_view(ls@), prefix@) is None,
        },
{
    let ghost lv = strings_view(ls@);
    let mut i = ls.len();
    assert(lv.take(i as int) =~= lv);
    while i > 0
        invariant
            i <= ls.len(),
            lv == strings_view(ls@),
            last_starting(lv, prefix@) == last_starting(lv.take(i as int), prefix@),
        decreases i,
    {
        assert(lv.take(i as int).last() == ls@[i - 1]@);
        assert(lv.take(i as int).drop_last() =~= lv.take(i - 1));
        if has_prefix(ls[i - 1].as_str(), prefix) {
            return Some(i - 1);
        }
        i -= 1;
    }
    assert(lv.take(0) =~= Seq::<Seq<char>>::empty());
    None
}

fn colon_field_of(line: &str, default: &str) -> (res: String)
    ensures
        res@ == colon_field(line@, default@),
{
    let v = chars_of(line);
    let b = split_bounds(&v, 0, v.len(), ':');
    assert(v@.subrange(0, v.len() as int) =~= line@);
    if b.len() > 1 {
        let (lo, hi) = b[1];
        let (a, c) = trim_bounds(&v, lo, hi);
        string_of(&v, a, c)
    } else {
        let d = chars_of(default);
        assert(d@.subrange(0, d.len() as int) =~= default@);
        let (a, c) = trim_bounds(&d, 0, d.len());
        string_of(&d, a, c)
    }
}

/// The processor's model, clock and cache size from the text of
/// `/proc/cpuinfo` (see `cpu_details_of`).
pub fn cpu_details(cpuinfo: &str) -> (res: (String, Option<String>, String))
    ensures
        res.0@ == cpu_details_of(cpuinfo@).0,
        match res.1 {
            Some(f) => cpu_details_of(cpuinfo@).1 == Some(f@),
            None => cpu_details_of(cpuinfo@).1 is None,
        },
        res.2@ == cpu_details_of(cpuinfo@).2,
{
    let ls = lines_of(cpuinfo);
    proof {
        reveal_strlit("0");
    }
    let model = match last_starting_index(&ls, "model name") {
        Some(k) => colon_field_of(ls[k].as_str(), ""),
        None => String::new(),
    };
    let clock = match last_starting_index(&ls, "cpu MHz") {
        Some(k) => Some(colon_field_of(ls[k].as_str(), "0")),
        None => None,
    };
    let cache = match last_starting_index(&ls, "cache size") {
        Some(k) => colon_field_of(ls[k].as_str(), ""),
        None => String::new(),
    };
    proof {
        reveal_strlit("");
    }
    (model, clock, cache)
}

/// A reading from a one-number file under `/sys` (a temperature in
/// thousandths of a degree, a clock rate in kHz): the file's trimmed text
/// as a `u32`, or `None` when it is none.
pub fn sensor_reading(text: &str) -> (res: Option<u32>)
    ensures
        res == (match parse_unsigned(trim(text@), u32::MAX as nat) {
            Some(n) => Some(n as u32),
            None => None::<u32>,
        }),
{
    let v = chars_of(text);
    assert(v@.subrange(0, v.len() as int) =~= text@);
    let (a, b) = trim_bounds(&v, 0, v.len());
    match parse_u64_range(&v, a, b) {
        Some(n) => {
            if n <= u32::MAX as u64 {
                Some(n as u32)
            } else {
                None
            }
        },
        None => None,
    }
}

fn number_of(s: &str) -> (res: u64)
    ensures
        res == number_or_zero(s@),
{
    match parse_u64_str(s) {
        Some(n) => n,
        None => 0,
    }
}

/// A line of `/proc/diskstats` whose traffic is counted: one about `sda`,
/// `vda` or `nvme0n1` (the name with a space on each side) that has more
/// than nine words.
pub open spec fn counted_disk_line(line: Seq<char>) -> bool {
    &&& (contains(line, " sda "@) || contains(line, " vda "@) || contains(line, " nvme0n1 "@))
    &&& words(line).len() > 9
}

/// The sectors read and written that a counted line gives: its sixth and
/// tenth words as numbers, each 0 when it is none.
pub open spec fn line_sectors(line: Seq<char>) -> (nat, nat) {
    let w = words(line);
    (number_or_zero(w[5]), number_or_zero(w[9]))
}

/// The sectors read and written on the last counted line of `ls`; `(0, 0)`
/// when there is none.
pub open spec fn disk_sectors_in(ls: Seq<Seq<char>>) -> (nat, nat)
    decreases ls.len(),
{
    if ls.len() == 0 {
        (0, 0)
    } else if counted_disk_line(ls.last()) {
        line_sectors(ls.last())
    } else {
        disk_sectors_in(ls.drop_last())
    }
}

/// Each counted line of `ls` gives sector counts whose bytes, at 512 to a
/// sector, fit in a `u64`.
pub open spec fn sector_bytes_fit(ls: Seq<Seq<char>>) -> bool {
    forall|i: int|
        0 <= i < ls.len() && #[trigger] counted_disk_line(ls[i]) ==> {
            &&& line_sectors(ls[i]).0 * 512 <= u64::MAX
            &&& line_sectors(ls[i]).1 * 512 <= u64::MAX
        }
}

/// The bytes read from and written to the counted disks, `(read, written)`,
/// from the text of `/proc/diskstats`: the sectors of its last counted line
/// at 512 bytes each. `None` when a counted line gives a count whose bytes
/// do not fit in a `u64`.
pub fn disk_bytes(diskstats: &str) -> (res: Option<(u64, u64)>)
    ensures
        match res {
            Some((r, w)) => {
                &&& sector_bytes_fit(lines(diskstats@))
                &&& r == disk_sectors_in(lines(diskstats@)).0 * 512
                &&& w == disk_sectors_in(lines(diskstats@)).1 * 512
            },
            None => !sector_bytes_fit(lines(diskstats@)),
        },
{
    let ls = lines_of(diskstats);
    let ghost lv = strings_view(ls@);
    let mut read: u64 = 0;
    let mut written: u64 = 0;
    let mut i: usize = 0;
    assert(lv.take(0) =~= Seq::<Seq<char>>::empty());
    while i < ls.len()
        invariant
            i <= ls.len(),
            lv == strings_view(ls@),
            lv == lines(diskstats@),
            sector_bytes_fit(lv.take(i as int)),
            read == disk_sectors_in(lv.take(i as int)).0 * 512,
            written == disk_sectors_in(lv.take(i as int)).1 * 512,
        decreases ls.len() - i,
    {
        let ghost before = lv.take(i as int);
        let ghost after = lv.take(i + 1);
        assert(after.drop_last() =~= before);
        assert(after.last() == ls@[i as int]@);
        let line = ls[i].as_str();
        let w = words_of(line);
        assert(strings_view(w@).len() == w.len());
        let named = contains_exec(line, " sda ") || contains_exec(line, " vda ")
            || contains_exec(line, " nvme0n1 ");
        if named && w.len() > 9 {
            assert(strings_view(w@)[5] == w@[5]@ && strings_view(w@)[9] == w@[9]@);
            let r = number_of(w[5].as_str());
            let s = number_of(w[9].as_str());
            if r > u64::MAX / 512 || s > u64::MAX / 512 {
                assert(!sector_bytes_fit(lv)) by {
                    assert(counted_disk_line(lv[i as int]));
                }
                return None;
            }
            read = r * 512;
            written = s * 512;
        }
        assert(sector_bytes_fit(after)) by {
            assert forall|j: int|
                0 <= j < after.len() && #[trigger] counted_disk_line(after[j]) implies {
                &&& line_sectors(after[j]).0 * 512 <= u64::MAX
                &&& line_sectors(after[j]).1 * 512 <= u64::MAX
            } by {
                if j < i {
                    assert(after[j] == before[j]);
                }
            }
        }
        i += 1;
    }
    assert(lv.take(ls.len() as int) =~= lv);
    Some((read, written))
}

/// The pretty name in `/etc/os-release`: on the last line that starts with
/// `PRETTY_NAME=`, the text between the first and second `=`, without
/// surrounding quotes; `Unknown` when there is none or it is empty.
pub open spec fn os_name_of(text: Seq<char>) -> Seq<char> {
    let n = os_name_in(lines(text));
    if n.len() > 0 {
        n
    } else {
        "Unknown"@
    }
}

pub open spec fn os_name_in(ls: Seq<Seq<char>>) -> Seq<char>
    decreases ls.len(),
{
    if ls.len() == 0 {
        seq![]
    } else if starts_with(ls.last(), "PRETTY_NAME="@) {
        let parts = split_on(ls.last(), '=');
        trim_char(if parts.len() > 1 { parts[1] } else { seq![] }, '"')
    } else {
        os_name_in(ls.drop_last())
    }
}

fn named_or_unknown(name: String) -> (res: String)
    ensures
        res@ == (if name@.len() > 0 {
            name@
        } else {
            "Unknown"@
        }),
{
    if chars_of(name.as_str()).len() > 0 {
        name
    } else {
        proof {
            reveal_strlit("Unknown");
        }
        owned("Unknown")
    }
}

/// The operating system's pretty name from the text of `/etc/os-release`.
pub fn os_name(text: &str) -> (res: String)
    ensures
        res@ == os_name_of(text@),
{
    let ls = lines_of(text);
    let ghost lv = strings_view(ls@);
    let mut i = ls.len();
    assert(lv.take(i as int) =~= lv);
    while i > 0
        invariant
            i <= ls.len(),
            lv == strings_view(ls@),
            lv == lines(text@),
            os_name_in(lv) == os_name_in(lv.take(i as int)),
        decreases i,
    {
        assert(lv.take(i as int).last() == ls@[i - 1]@);
        assert(lv.take(i as int).drop_last() =~= lv.take(i - 1));
        if has_prefix(ls[i - 1].as_str(), "PRETTY_NAME=") {
            let v = chars_of(ls[i - 1].as_str());
            let b = split_bounds(&v, 0, v.len(), '=');
            assert(v@.subrange(0, v.len() as int) =~= ls@[i - 1]@);
            let name = if b.len() > 1 {
                let (lo, hi) = b[1];
                let (a, c) = trim_char_bounds(&v, lo, hi, '"');
                string_of(&v, a, c)
            } else {
                assert(trim_char(Seq::<char>::empty(), '"') =~= Seq::<char>::empty());
                String::new()
            };
            return named_or_unknown(name);
        }
        i -= 1;
    }
    assert(lv.take(0) =~= Seq::<Seq<char>>::empty());
    named_or_unknown(String::new())
}

/// The file system type of `/` in `/proc/mounts`: the third word of the
/// first line with at least three words whose second word is `/`;
/// `Unknown` when there is none.
pub open spec fn root_fs_of(ls: Seq<Seq<char>>) -> Seq<char>
    decreases ls.len(),
{
    if ls.len() == 0 {
        "Unknown"@
    } else {
        let w = words(ls[0]);
        if w.len() > 2 && w[1] == "/"@ {
            w[2]
        } else {
            root_fs_of(ls.drop_first())
        }
    }
}

/// The file system type of `/` from the text of `/proc/mounts`.
pub fn root_fs_type(mounts: &str) -> (res: String)
    ensures
        res@ == root_fs_of(lines(mounts@)),
{
    let ls = lines_of(mounts);
    let ghost lv = strings_view(ls@);
    let mut i: usize = 0;
    assert(lv.skip(0) =~= lv);
    while i < ls.len()
        invariant
            i <= ls.len(),
            lv == strings_view(ls@),
            lv == lines(mounts@),
            root_fs_of(lv) == root_fs_of(lv.skip(i as int)),
        decreases ls.len() - i,
    {
        assert(lv.skip(i as int)[0] == ls@[i as int]@);
        assert(lv.skip(i as int).drop_first() =~= lv.skip(i + 1));
        let w = words_of(ls[i].as_str());
        assert(strings_view(w@).len() == w.len());
        if w.len() > 2 {
            assert(strings_view(w@)[1] == w@[1]@ && strings_view(w@)[2] == w@[2]@);
            if str_eq(w[1].as_str(), "/") {
                return owned(w[2].as_str());
            }
        }
        i += 1;
    }
    proof {
        reveal_strlit("Unknown");
    }
    owned("Unknown")
}

/// The size and use of the root file system in MiB, `(total, used)`, from
/// the output of `df -BM /`: the second and third words of its second line
/// without their trailing `M`s, each 0 when it is no number; `(0, 0)` when
/// that line is missing or short.
pub open spec fn disk_of(output: Seq<char>) -> (nat, nat) {
    let ls = lines(output);
    if ls.len() > 1 {
        let w = words(ls[1]);
        if w.len() >= 3 {
            (number_or_zero(strip_char_end(w[1], 'M')), number_or_zero(strip_char_end(w[2], 'M')))
        } else {
            (0, 0)
        }
    } else {
        (0, 0)
    }
}

fn number_without_m(s: &str) -> (res: u64)
    ensures
        res == number_or_zero(strip_char_end(s@, 'M')),
{
    let v = chars_of(s);
    let mut hi = v.len();
    assert(v@.subrange(0, hi as int) =~= s@);
    while hi > 0 && v[hi - 1] == 'M'
        invariant
            hi <= v.len(),
            v@ == s@,
            strip_char_end(s@, 'M') == strip_char_end(v@.subrange(0, hi as int), 'M'),
        decreases hi,
    {
        assert(v@.subrange(0, hi as int).drop_last() =~= v@.subrange(0, hi - 1));
        hi -= 1;
    }
    match parse_u64_range(&v, 0, hi) {
        Some(n) => n,
        None => 0,
    }
}

/// The size and use of the root file system from the output of `df -BM /`.
pub fn parse_df(output: &str) -> (res: (u64, u64))
    ensures
        (res.0 as nat, res.1 as nat) == disk_of(output@),
{
    let ls = lines_of(output);
    assert(strings_view(ls@).len() == ls.len());
    if ls.len() > 1 {
        assert(strings_view(ls@)[1] == ls@[1]@);
        let w = words_of(ls[1].as_str());
        assert(strings_view(w@).len() == w.len());
        if w.len() >= 3 {
            assert(strings_view(w@)[1] == w@[1]@ && strings_view(w@)[2] == w@[2]@);
            (number_without_m(w[1].as_str()), number_without_m(w[2].as_str()))
        } else {
            (0, 0)
        }
    } else {
        (0, 0)
    }
}

// ---------------------------------------------------------------------------
// Process states
// ---------------------------------------------------------------------------

/// How many processes are in each state.
#[derive(Clone, Copy, Debug, PartialEq, Eq, Structural)]
pub struct StateCounts {
    pub running: usize,
    pub sleeping: usize,
    pub stopped: usize,
    pub zombie: usize,
    pub other: usize,
}

/// The state a status falls under: 0 running, 1 sleeping, 2 stopped,
/// 3 zombie, 4 other, by what its trimmed, lower-cased text contains.
pub open spec fn state_class(status: Seq<char>) -> nat {
    let s = lowercase(trim(status));
    if contains(s, "run"@) {
        0
    } else if contains(s, "sleep"@) {
        1
    } else if contains(s, "stop"@) {
        2
    } else if contains(s, "zomb"@) {
        3
    } else {
        4
    }
}

/// The number of processes of `ps` whose state falls under `class`.
pub open spec fn count_class(ps: Seq<ProcessView>, class: nat) -> nat
    decreases ps.len(),
{
    if ps.len() == 0 {
        0
    } else {
        count_class(ps.drop_last(), class) + if state_class(ps.last().status) == class {
            1nat
        } else {
            0nat
        }
    }
}

fn class_of(status: &str) -> (res: u8)
    ensures
        res as nat == state_class(status@),
{
    let v = chars_of(status);
    let (a, b) = trim_bounds(&v, 0, v.len());
    assert(v@.subrange(0, v.len() as int) =~= status@);
    let t = string_of(&v, a, b);
    let s = to_lowercase(t.as_str());
    if contains_exec(s.as_str(), "run") {
        0
    } else if contains_exec(s.as_str(), "sleep") {
        1
    } else if contains_exec(s.as_str(), "stop") {
        2
    } else if contains_exec(s.as_str(), "zomb") {
        3
    } else {
        4
    }
}

/// How many of `processes` are running, sleeping, stopped, zombies or
/// otherwise.
pub fn state_counts(processes: &[ProcessInfo]) -> (res: StateCounts)
    ensures
        res.running == count_class(views(processes@), 0),
        res.sleeping == count_class(views(processes@), 1),
        res.stopped == count_class(views(processes@), 2),
        res.zombie == count_class(views(processes@), 3),
        res.other == count_class(views(processes@), 4),
{
    let ghost pv = views(processes@);
    let mut c = StateCounts { running: 0, sleeping: 0, stopped: 0, zombie: 0, other: 0 };
    let mut i: usize = 0;
    assert(pv.take(0) =~= Seq::<ProcessView>::empty());
    while i < processes.len()
        invariant
            i <= processes.len(),
            pv == views(processes@),
            c.running == count_class(pv.take(i as int), 0),
            c.sleeping == count_class(pv.take(i as int), 1),
            c.stopped == count_class(pv.take(i as int), 2),
            c.zombie == count_class(pv.take(i as int), 3),
            c.other == count_class(pv.take(i as int), 4),
            c.running + c.sleeping + c.stopped + c.zombie + c.other == i,
        decreases processes.len() - i,
    {
        assert(pv.take(i + 1).drop_last() =~= pv.take(i as int));
        assert(pv.take(i + 1).last() == processes@[i as int]@);
        let k = class_of(processes[i].status.as_str());
        if k == 0 {
            c.running += 1;
        } else if k == 1 {
            c.sleeping += 1;
        } else if k == 2 {
            c.stopped += 1;
        } else if k == 3 {
            c.zombie += 1;
        } else {
            c.other += 1;
        }
        i += 1;
    }
    assert(pv.take(processes.len() as int) =~= pv);
    c
}

} // verus!
