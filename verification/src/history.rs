//! The recent history behind the graphs: the total CPU share and the memory
//! in use at each update, and the CPU share and memory of each listed
//! process, each keeping at most `max_points` values, the newest last.
//!
//! CPU shares are `f32` bit patterns (see `cpu`); adding up the total is
//! the caller's work. An update is taken at most once per update
//! interval.

use vstd::prelude::*;
use crate::activity::listed;
use crate::procinfo::{ProcessInfo, ProcessView, views};
use crate::scheduler::{Moment, clock_now, has_waited_ms, waited_ms};

verus! {

/// `s` with `x` appended, keeping only its last `max` values.
pub open spec fn bounded_push<T>(s: Seq<T>, x: T, max: nat) -> Seq<T> {
    let t = s.push(x);
    if t.len() > max {
        t.skip(t.len() - max)
    } else {
        t
    }
}

/// What an update records, from the histories `g` to `h`: the total CPU
/// share and the memory in use appended, each history keeping its last
/// `max_points` values, and the histories of the listed processes updated.
pub open spec fn recorded(g: GraphData, h: GraphData, total_cpu_bits: u32, memory_used: u64, ps: Seq<ProcessView>) -> bool {
    &&& h.spec_cpu() == bounded_push(g.spec_cpu(), total_cpu_bits, g.spec_max())
    &&& h.spec_memory() == bounded_push(g.spec_memory(), memory_used, g.spec_max())
    &&& h.spec_histories() == updated_histories(g.spec_histories(), ps, g.spec_max())
}

/// The history of one process: its PID, its CPU shares and its memory.
pub struct ProcessHistory {
    pub pid: u32,
    pub cpu: Vec<u32>,
    pub memory: Vec<u64>,
}

/// The model of a process history.
pub type HistoryView = (u32, Seq<u32>, Seq<u64>);

pub open spec fn history_views(v: Seq<ProcessHistory>) -> Seq<HistoryView> {
    v.map_values(|h: ProcessHistory| (h.pid, h.cpu@, h.memory@))
}

/// The position of the history of `pid`.
pub open spec fn history_index(hs: Seq<HistoryView>, pid: u32) -> Option<int>
    decreases hs.len(),
{
    if hs.len() == 0 {
        None
    } else if hs[0].0 == pid {
        Some(0)
    } else {
        match history_index(hs.drop_first(), pid) {
            Some(k) => Some(k + 1),
            None => None,
        }
    }
}

/// `hs` after recording the values of process `p`: appended to its history,
/// or to a new history at the end when it has none.
pub open spec fn record_one(hs: Seq<HistoryView>, p: ProcessView, max: nat) -> Seq<HistoryView> {
    match history_index(hs, p.pid) {
        Some(i) => hs.update(
            i,
            (p.pid, bounded_push(hs[i].1, p.cpu_usage_bits, max), bounded_push(hs[i].2, p.memory_usage, max)),
        ),
        None => hs.push(
            (p.pid, bounded_push(seq![], p.cpu_usage_bits, max), bounded_push(seq![], p.memory_usage, max)),
        ),
    }
}

/// `hs` after recording the values of each of `ps`, in order.
pub open spec fn record_all(hs: Seq<HistoryView>, ps: Seq<ProcessView>, max: nat) -> Seq<HistoryView>
    decreases ps.len(),
{
    if ps.len() == 0 {
        hs
    } else {
        record_one(record_all(hs, ps.drop_last(), max), ps.last(), max)
    }
}

/// The per-process histories after an update with the listed processes
/// `ps`: the histories of processes no longer listed are dropped, and each
/// listed process's values are recorded.
pub open spec fn updated_histories(hs: Seq<HistoryView>, ps: Seq<ProcessView>, max: nat) -> Seq<HistoryView> {
    record_all(hs.filter(|h: HistoryView| listed(ps, h.0)), ps, max)
}

/// No two histories are of the same process, and none is longer than `max`.
pub open spec fn well_kept(hs: Seq<HistoryView>, max: nat) -> bool {
    &&& forall|i: int, j: int| 0 <= i < j < hs.len() ==> hs[i].0 != hs[j].0
    &&& forall|i: int| 0 <= i < hs.len() ==> hs[i].1.len() <= max && hs[i].2.len() <= max
}

pub struct GraphData {
    cpu_history: Vec<u32>,
    memory_history: Vec<u64>,
    max_points: usize,
    per_process: Vec<ProcessHistory>,
    update_interval_ms: u64,
    last_update: Moment,
}

impl GraphData {
    #[verifier::type_invariant]
    spec fn kept(self) -> bool {
        &&& self.cpu_history.len() <= self.max_points
        &&& self.memory_history.len() <= self.max_points
        &&& well_kept(history_views(self.per_process@), self.max_points as nat)
    }

    pub closed spec fn spec_cpu(&self) -> Seq<u32> {
        self.cpu_history@
    }

    pub closed spec fn spec_memory(&self) -> Seq<u64> {
        self.memory_history@
    }

    pub closed spec fn spec_max(&self) -> nat {
        self.max_points as nat
    }

    pub closed spec fn spec_histories(&self) -> Seq<HistoryView> {
        history_views(self.per_process@)
    }

    /// The least time between two updates, in milliseconds.
    pub closed spec fn spec_interval(&self) -> nat {
        self.update_interval_ms as nat
    }

    /// When the histories were last updated (or made).
    pub closed spec fn spec_last_update(&self) -> Moment {
        self.last_update
    }

    /// Empty histories that keep at most `max_points` values and take an
    /// update at most every `update_interval_ms` milliseconds, made at `now`.
    pub fn new_at(max_points: usize, update_interval_ms: u64, now: Moment) -> (g: Self)
        ensures
            g.spec_cpu() == Seq::<u32>::empty(),
            g.spec_memory() == Seq::<u64>::empty(),
            g.spec_max() == max_points,
            g.spec_histories() == Seq::<HistoryView>::empty(),
            g.spec_interval() == update_interval_ms,
            g.spec_last_update() == now,
    {
        let g = GraphData {
            cpu_history: Vec::new(),
            memory_history: Vec::new(),
            max_points,
            per_process: Vec::new(),
            update_interval_ms,
            last_update: now,
        };
        assert(history_views(g.per_process@) =~= Seq::<HistoryView>::empty());
        g
    }

    /// Empty histories that keep at most `max_points` values and take an
    /// update at most every `update_interval_ms` milliseconds, made now (the
    /// clock is read; see `new_at`).
    pub fn new(max_points: usize, update_interval_ms: u64) -> (g: Self)
        ensures
            g.spec_cpu() == Seq::<u32>::empty(),
            g.spec_memory() == Seq::<u64>::empty(),
            g.spec_max() == max_points,
            g.spec_histories() == Seq::<HistoryView>::empty(),
            g.spec_interval() == update_interval_ms,
    {
        Self::new_at(max_points, update_interval_ms, clock_now())
    }

    /// Takes an update at `now`, unless less than the update interval has
    /// passed since the last one (or `now` is before it), in which case
    /// nothing changes and the result is `false`. An update records the
    /// total CPU share (bits), the memory in use and the listed processes,
    /// and becomes the last update.
    pub fn update_at(&mut self, now: Moment, total_cpu_bits: u32, memory_used: u64, processes: &[ProcessInfo]) -> (res: bool)
        ensures
            res == waited_ms(now, old(self).spec_last_update(), old(self).spec_interval()),
            !res ==> *final(self) == *old(self),
            res ==> final(self).spec_last_update() == now,
            res ==> recorded(*old(self), *final(self), total_cpu_bits, memory_used, views(processes@)),
            final(self).spec_max() == old(self).spec_max(),
            final(self).spec_interval() == old(self).spec_interval(),
    {
        if !has_waited_ms(now, self.last_update, self.update_interval_ms) {
            return false;
        }
        self.record(total_cpu_bits, memory_used, processes);
        proof {
            use_type_invariant(&*self);
        }
        self.last_update = now;
        true
    }

    /// Takes an update now (the clock is read; see `update_at`): either
    /// nothing changes and the result is `false`, or the update is recorded.
    pub fn update(&mut self, total_cpu_bits: u32, memory_used: u64, processes: &[ProcessInfo]) -> (res: bool)
        ensures
            !res ==> *final(self) == *old(self),
            res ==> recorded(*old(self), *final(self), total_cpu_bits, memory_used, views(processes@)),
            res ==> waited_ms(final(self).spec_last_update(), old(self).spec_last_update(), old(self).spec_interval()),
            final(self).spec_max() == old(self).spec_max(),
            final(self).spec_interval() == old(self).spec_interval(),
    {
        let now = clock_now();
        self.update_at(now, total_cpu_bits, memory_used, processes)
    }

    fn record(&mut self, total_cpu_bits: u32, memory_used: u64, processes: &[ProcessInfo])
        ensures
            final(self).spec_max() == old(self).spec_max(),
            final(self).spec_interval() == old(self).spec_interval(),
            final(self).spec_last_update() == old(self).spec_last_update(),
            final(self).spec_cpu() == bounded_push(old(self).spec_cpu(), total_cpu_bits, old(self).spec_max()),
            final(self).spec_memory() == bounded_push(
                old(self).spec_memory(),
                memory_used,
                old(self).spec_max(),
            ),
            final(self).spec_histories() == updated_histories(
                old(self).spec_histories(),
                views(processes@),
                old(self).spec_max(),
            ),
    {
        proof {
            use_type_invariant(&*self);
        }
        let max = self.max_points;
        let mut cpu: Vec<u32> = Vec::new();
        std::mem::swap(&mut cpu, &mut self.cpu_history);
        let cpu = push_bounded_u32(cpu, total_cpu_bits, max);
        let mut mem: Vec<u64> = Vec::new();
        std::mem::swap(&mut mem, &mut self.memory_history);
        let mem = push_bounded_u64(mem, memory_used, max);
        let mut hs: Vec<ProcessHistory> = Vec::new();
        std::mem::swap(&mut hs, &mut self.per_process);
        let hs = keep_listed(hs, processes, max);
        let hs = record_processes(hs, processes, max);
        self.cpu_history = cpu;
        self.memory_history = mem;
        self.per_process = hs;
    }

    pub fn get_cpu_history(&self) -> (res: &[u32])
        ensures
            res@ == self.spec_cpu(),
    {
        self.cpu_history.as_slice()
    }

    pub fn get_memory_history(&self) -> (res: &[u64])
        ensures
            res@ == self.spec_memory(),
    {
        self.memory_history.as_slice()
    }

    /// The CPU shares and memory recorded for `pid`, if it has a history.
    pub fn get_process_history(&self, pid: u32) -> (res: Option<(&[u32], &[u64])>)
        ensures
            match history_index(self.spec_histories(), pid) {
                Some(i) => res matches Some((c, m)) && c@ == self.spec_histories()[i].1
                    && m@ == self.spec_histories()[i].2,
                None => res is None,
            },
    {
        let ghost hv = history_views(self.per_process@);
        let mut i: usize = 0;
        assert(hv.skip(0) =~= hv);
        while i < self.per_process.len()
            invariant
                i <= self.per_process.len(),
                hv == history_views(self.per_process@),
                history_index(hv, pid) == match history_index(hv.skip(i as int), pid) {
                    Some(k) => Some(k + i),
                    None => None,
                },
            decreases self.per_process.len() - i,
        {
            assert(hv.skip(i as int)[0] == hv[i as int]);
            assert(hv.skip(i as int).drop_first() =~= hv.skip(i + 1));
            if self.per_process[i].pid == pid {
                let h = &self.per_process[i];
                return Some((h.cpu.as_slice(), h.memory.as_slice()));
            }
            i += 1;
        }
        None
    }
}

fn push_bounded_u32(s: Vec<u32>, x: u32, max: usize) -> (res: Vec<u32>)
    requires
        s.len() <= max,
    ensures
        res@ == bounded_push(s@, x, max as nat),
        res.len() <= max,
{
    let mut s = s;
    s.push(x);
    if s.len() > max {
        let ghost before = s@;
        s.remove(0);
        assert(s@ =~= before.skip(before.len() - max));
    }
    s
}

fn push_bounded_u64(s: Vec<u64>, x: u64, max: usize) -> (res: Vec<u64>)
    requires
        s.len() <= max,
    ensures
        res@ == bounded_push(s@, x, max as nat),
        res.len() <= max,
{
    let mut s = s;
    s.push(x);
    if s.len() > max {
        let ghost before = s@;
        s.remove(0);
        assert(s@ =~= before.skip(before.len() - max));
    }
    s
}

fn is_listed(ps: &[ProcessInfo], pid: u32) -> (res: bool)
    ensures
        res == listed(views(ps@), pid),
{
    let ghost pv = views(ps@);
    let mut i: usize = 0;
    while i < ps.len()
        invariant
            i <= ps.len(),
            pv == views(ps@),
            forall|k: int| 0 <= k < i ==> pv[k].pid != pid,
        decreases ps.len() - i,
    {
        assert(pv[i as int] == ps@[i as int]@);
        if ps[i].pid == pid {
            return true;
        }
        i += 1;
    }
    false
}

/// A sub-sequence of a well-kept sequence is well kept.
proof fn lemma_filter_well_kept(hs: Seq<HistoryView>, f: spec_fn(HistoryView) -> bool, max: nat)
    requires
        well_kept(hs, max),
    ensures
        well_kept(hs.filter(f), max),
    decreases hs.len(),
{
    reveal(Seq::filter);
    if hs.len() > 0 {
        let front = hs.drop_last();
        assert(well_kept(front, max)) by {
            assert forall|i: int, j: int| 0 <= i < j < front.len() implies front[i].0 != front[j].0 by {
                assert(front[i] == hs[i] && front[j] == hs[j]);
            }
        }
        lemma_filter_well_kept(front, f, max);
        let r = front.filter(f);
        if f(hs.last()) {
            assert forall|i: int| 0 <= i < r.len() implies r[i].0 != hs.last().0 by {
                assert(r.contains(r[i]));
                front.lemma_filter_contains_rev(f, r[i]);
                let k = choose|k: int| 0 <= k < front.len() && front[k] == r[i];
                assert(hs[k] == front[k]);
            }
        }
    }
}

/// The histories of `hs` whose processes are listed in `processes`.
fn keep_listed(hs: Vec<ProcessHistory>, processes: &[ProcessInfo], max: usize) -> (res: Vec<ProcessHistory>)
    requires
        well_kept(history_views(hs@), max as nat),
    ensures
        history_views(res@) == history_views(hs@).filter(|h: HistoryView| listed(views(processes@), h.0)),
        well_kept(history_views(res@), max as nat),
{
    let ghost hv = history_views(hs@);
    let ghost pv = views(processes@);
    let mut rest = hs;
    let mut out: Vec<ProcessHistory> = Vec::new();
    let n = rest.len();
    let mut i: usize = 0;
    while i < n
        invariant
            n == hv.len(),
            i <= n,
            rest.len() == n - i,
            history_views(rest@) == hv.skip(i as int),
            pv == views(processes@),
            history_views(out@) == hv.take(i as int).filter(|h: HistoryView| listed(pv, h.0)),
        decreases n - i,
    {
        let ghost before = rest@;
        let h = rest.remove(0);
        proof {
            assert(rest@ =~= before.drop_first());
            assert(history_views(rest@) =~= history_views(before).drop_first());
            assert(history_views(before)[0] == (h.pid, h.cpu@, h.memory@));
            assert(hv.take(i + 1).drop_last() =~= hv.take(i as int));
            assert(hv.take(i + 1).last() == hv[i as int]);
            reveal(Seq::filter);
        }
        if is_listed(processes, h.pid) {
            let ghost ob = out@;
            out.push(h);
            assert(history_views(out@) =~= history_views(ob).push(hv[i as int]));
        }
        i += 1;
    }
    assert(hv.take(n as int) =~= hv);
    proof {
        lemma_filter_well_kept(hv, |h: HistoryView| listed(pv, h.0), max as nat);
    }
    out
}

proof fn lemma_history_index(hs: Seq<HistoryView>, pid: u32)
    ensures
        history_index(hs, pid) matches Some(k) ==> 0 <= k < hs.len() && hs[k].0 == pid,
        history_index(hs, pid) is None ==> forall|k: int| 0 <= k < hs.len() ==> hs[k].0 != pid,
    decreases hs.len(),
{
    if hs.len() > 0 {
        lemma_history_index(hs.drop_first(), pid);
        if hs[0].0 != pid {
            assert forall|k: int| 0 < k < hs.len() implies hs[k] == hs.drop_first()[k - 1] by {}
        }
    }
}

/// Recording one process keeps the histories well kept.
proof fn lemma_record_one_well_kept(hs: Seq<HistoryView>, p: ProcessView, max: nat)
    requires
        well_kept(hs, max),
    ensures
        well_kept(record_one(hs, p, max), max),
{
    lemma_history_index(hs, p.pid);
}

/// The histories after recording `ps` in turn.
fn record_processes(hs: Vec<ProcessHistory>, processes: &[ProcessInfo], max: usize) -> (res: Vec<
    ProcessHistory,
>)
    requires
        well_kept(history_views(hs@), max as nat),
    ensures
        history_views(res@) == record_all(history_views(hs@), views(processes@), max as nat),
        well_kept(history_views(res@), max as nat),
{
    let ghost h0 = history_views(hs@);
    let ghost pv = views(processes@);
    let mut hs = hs;
    let mut i: usize = 0;
    assert(pv.take(0) =~= Seq::<ProcessView>::empty());
    while i < processes.len()
        invariant
            i <= processes.len(),
            pv == views(processes@),
            history_views(hs@) == record_all(h0, pv.take(i as int), max as nat),
            well_kept(history_views(hs@), max as nat),
        decreases processes.len() - i,
    {
        let p = &processes[i];
        proof {
            assert(pv.take(i + 1).drop_last() =~= pv.take(i as int));
            assert(pv.take(i + 1).last() == pv[i as int]);
            assert(pv[i as int] == p@);
            lemma_history_index(history_views(hs@), p.pid);
            lemma_record_one_well_kept(history_views(hs@), p@, max as nat);
        }
        let ghost hv = history_views(hs@);
        let mut j: usize = 0;
        assert(hv.skip(0) =~= hv);
        while j < hs.len() && hs[j].pid != p.pid
            invariant
                j <= hs.len(),
                hv == history_views(hs@),
                history_index(hv, p.pid) == match history_index(hv.skip(j as int), p.pid) {
                    Some(k) => Some(k + j),
                    None => None,
                },
            decreases hs.len() - j,
        {
            assert(hv.skip(j as int)[0] == hv[j as int]);
            assert(hv.skip(j as int).drop_first() =~= hv.skip(j + 1));
            j += 1;
        }
        if j < hs.len() {
            assert(hv.skip(j as int)[0] == hv[j as int]);
            assert(history_index(hv, p.pid) == Some(j as int));
            let mut h = hs.remove(j);
            let mut c: Vec<u32> = Vec::new();
            std::mem::swap(&mut c, &mut h.cpu);
            h.cpu = push_bounded_u32(c, p.cpu_usage_bits, max);
            let mut m: Vec<u64> = Vec::new();
            std::mem::swap(&mut m, &mut h.memory);
            h.memory = push_bounded_u64(m, p.memory_usage, max);
            hs.insert(j, h);
            assert(history_views(hs@) =~= hv.update(
                j as int,
                (
                    p.pid,
                    bounded_push(hv[j as int].1, p.cpu_usage_bits, max as nat),
                    bounded_push(hv[j as int].2, p.memory_usage, max as nat),
                ),
            ));
        } else {
            assert(hv.skip(j as int) =~= Seq::<HistoryView>::empty());
            let c = push_bounded_u32(Vec::new(), p.cpu_usage_bits, max);
            let m = push_bounded_u64(Vec::new(), p.memory_usage, max);
            let ghost hb = hs@;
            hs.push(ProcessHistory { pid: p.pid, cpu: c, memory: m });
            assert(history_views(hs@) =~= hv.push(
                (
                    p.pid,
                    bounded_push(Seq::<u32>::empty(), p.cpu_usage_bits, max as nat),
                    bounded_push(Seq::<u64>::empty(), p.memory_usage, max as nat),
                ),
            ));
        }
        i += 1;
    }
    assert(pv.take(processes.len() as int) =~= pv);
    hs
}

/// Law: however the histories are updated, none keeps more than
/// `max_points` values, and no process has two histories.
pub proof fn lemma_update_keeps_bounds(hs: Seq<HistoryView>, ps: Seq<ProcessView>, max: nat)
    requires
        well_kept(hs, max),
    ensures
        well_kept(updated_histories(hs, ps, max), max),
{
    lemma_filter_well_kept(hs, |h: HistoryView| listed(ps, h.0), max);
    lemma_record_all_well_kept(hs.filter(|h: HistoryView| listed(ps, h.0)), ps, max);
}

proof fn lemma_record_all_well_kept(hs: Seq<HistoryView>, ps: Seq<ProcessView>, max: nat)
    requires
        well_kept(hs, max),
    ensures
        well_kept(record_all(hs, ps, max), max),
    decreases ps.len(),
{
    if ps.len() > 0 {
        lemma_record_all_well_kept(hs, ps.drop_last(), max);
        lemma_record_one_well_kept(record_all(hs, ps.drop_last(), max), ps.last(), max);
    }
}

/// Law: after an update, the newest value of a listed process's history is
/// its current CPU share and memory (those of its last entry in the list).
pub proof fn lemma_update_records_latest(hs: Seq<HistoryView>, ps: Seq<ProcessView>, max: nat, k: int)
    requires
        max > 0,
        0 <= k < ps.len(),
        forall|j: int| k < j < ps.len() ==> ps[j].pid != ps[k].pid,
    ensures
        ({
            let out = updated_histories(hs, ps, max);
            &&& history_index(out, ps[k].pid) is Some
            &&& out[history_index(out, ps[k].pid)->0].1.last() == ps[k].cpu_usage_bits
            &&& out[history_index(out, ps[k].pid)->0].2.last() == ps[k].memory_usage
        }),
{
    let base = hs.filter(|h: HistoryView| listed(ps, h.0));
    lemma_record_all_latest(base, ps, max, k);
}

proof fn lemma_record_all_latest(hs: Seq<HistoryView>, ps: Seq<ProcessView>, max: nat, k: int)
    requires
        max > 0,
        0 <= k < ps.len(),
        forall|j: int| k < j < ps.len() ==> ps[j].pid != ps[k].pid,
    ensures
        ({
            let out = record_all(hs, ps, max);
            &&& history_index(out, ps[k].pid) is Some
            &&& out[history_index(out, ps[k].pid)->0].1.last() == ps[k].cpu_usage_bits
            &&& out[history_index(out, ps[k].pid)->0].2.last() == ps[k].memory_usage
        }),
    decreases ps.len(),
{
    let front = ps.drop_last();
    let mid = record_all(hs, front, max);
    let p = ps.last();
    let out = record_one(mid, p, max);
    lemma_history_index(mid, p.pid);
    lemma_history_index(out, p.pid);
    lemma_history_index(out, ps[k].pid);
    if k == ps.len() - 1 {
        match history_index(mid, p.pid) {
            Some(i) => {
                assert(out[i].0 == p.pid);
                lemma_history_index_first(mid, p.pid, i);
                lemma_history_index_unique(out, p.pid, i);
                lemma_bounded_push_last(mid[i].1, p.cpu_usage_bits, max);
                lemma_bounded_push_last(mid[i].2, p.memory_usage, max);
            },
            None => {
                assert(out[mid.len() as int].0 == p.pid);
                lemma_history_index_unique(out, p.pid, mid.len() as int);
                lemma_bounded_push_last(Seq::<u32>::empty(), p.cpu_usage_bits, max);
                lemma_bounded_push_last(Seq::<u64>::empty(), p.memory_usage, max);
            },
        }
    } else {
        assert(front[k] == ps[k]);
        lemma_record_all_latest(hs, front, max, k);
        lemma_history_index(mid, ps[k].pid);
        let i = history_index(mid, ps[k].pid)->0;
        assert(ps[k].pid != p.pid);
        match history_index(mid, p.pid) {
            Some(j) => {
                assert(j != i);
                assert(out[i] == mid[i]);
            },
            None => {
                assert(out[i] == mid[i]);
            },
        }
        assert(out[i].0 == ps[k].pid);
        lemma_history_index_first(mid, ps[k].pid, i);
        lemma_history_index_unique_prefix(out, mid, ps[k].pid, i);
    }
}

proof fn lemma_bounded_push_last<T>(s: Seq<T>, x: T, max: nat)
    requires
        max > 0,
    ensures
        bounded_push(s, x, max).len() > 0,
        bounded_push(s, x, max).last() == x,
{
    let t = s.push(x);
    if t.len() > max {
        assert(t.skip(t.len() - max).last() == t.last());
    }
}

/// The history of `pid` is found at `i` when it is there and at no earlier place.
proof fn lemma_history_index_unique(hs: Seq<HistoryView>, pid: u32, i: int)
    requires
        0 <= i < hs.len(),
        hs[i].0 == pid,
        forall|k: int| 0 <= k < i ==> hs[k].0 != pid,
    ensures
        history_index(hs, pid) == Some(i),
    decreases i,
{
    if i > 0 {
        assert forall|k: int| 0 <= k < i - 1 implies hs.drop_first()[k].0 != pid by {
            assert(hs.drop_first()[k] == hs[k + 1]);
        }
        lemma_history_index_unique(hs.drop_first(), pid, i - 1);
    }
}

proof fn lemma_history_index_first(hs: Seq<HistoryView>, pid: u32, i: int)
    requires
        history_index(hs, pid) == Some(i),
    ensures
        forall|k: int| 0 <= k < i ==> hs[k].0 != pid,
    decreases hs.len(),
{
    lemma_history_index(hs, pid);
    if hs.len() > 0 && hs[0].0 != pid {
        lemma_history_index_first(hs.drop_first(), pid, i - 1);
        assert forall|k: int| 0 <= k < i implies hs[k].0 != pid by {
            if k > 0 {
                assert(hs[k] == hs.drop_first()[k - 1]);
            }
        }
    }
}

/// Where `out` agrees with `mid` on the IDs up to `i`, the first history of
/// `pid` is at the same place.
proof fn lemma_history_index_unique_prefix(out: Seq<HistoryView>, mid: Seq<HistoryView>, pid: u32, i: int)
    requires
        0 <= i < out.len(),
        i < mid.len(),
        out[i].0 == pid,
        forall|k: int| 0 <= k < i ==> mid[k].0 != pid,
        forall|k: int| 0 <= k < i ==> out[k].0 == mid[k].0,
    ensures
        history_index(out, pid) == Some(i),
{
    lemma_history_index_unique(out, pid, i);
}

} // verus!
