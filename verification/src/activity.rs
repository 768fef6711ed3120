//! What happens between two refreshes of the process list: which processes
//! exited and which are new, the log of exited processes, and the log line
//! of each scheduled task that ran.

use vstd::prelude::*;
use crate::procinfo::{ProcessInfo, ProcessView, views};
use crate::scheduler::ScheduleAction;
use crate::filter::{lowercase, to_lowercase};
use crate::groups::{insert_sorted, lex_lt, sorted_strictly, str_views};
use crate::process::{slot, stable_sorted};
use crate::lists::LogGroup;
use crate::text::{
    contains, contains_exec, decimal, decimal_string, i32_string, owned, push_str, signed_decimal, str_eq,
};

verus! {

/// The process has one of the PIDs of `ps`.
pub open spec fn listed(ps: Seq<ProcessView>, pid: u32) -> bool {
    exists|i: int| 0 <= i < ps.len() && ps[i].pid == pid
}

/// The processes of `prev` that are no longer listed in `current`, in the
/// order of `prev`.
pub open spec fn gone(prev: Seq<ProcessView>, current: Seq<ProcessView>) -> Seq<ProcessView> {
    prev.filter(|p: ProcessView| !listed(current, p.pid))
}

/// The PIDs of `current` that `prev` did not list, in the order of `current`.
pub open spec fn arrived(prev: Seq<ProcessView>, current: Seq<ProcessView>) -> Seq<u32> {
    current.filter(|p: ProcessView| !listed(prev, p.pid)).map_values(|p: ProcessView| p.pid)
}

fn is_listed(ps: &[ProcessInfo], pid: u32) -> (res: bool)
    ensures
        res == listed(views(ps@), pid),
{
    let ghost pv = views(ps@);
    let mut i: usize = 0;
    while i < ps.len()
        invariant
            i <= ps.len(),
            pv == views(ps@),
            forall|k: int| 0 <= k < i ==> pv[k].pid != pid,
        decreases ps.len() - i,
    {
        assert(pv[i as int] == ps@[i as int]@);
        if ps[i].pid == pid {
            return true;
        }
        i += 1;
    }
    false
}

/// The processes of `prev` that have exited by the time `current` was listed.
pub fn exited_processes(prev: &[ProcessInfo], current: &[ProcessInfo]) -> (res: Vec<ProcessInfo>)
    ensures
        views(res@) == gone(views(prev@), views(current@)),
{
    let ghost pv = views(prev@);
    let ghost cv = views(current@);
    let mut res: Vec<ProcessInfo> = Vec::new();
    let mut i: usize = 0;
    while i < prev.len()
        invariant
            i <= prev.len(),
            pv == views(prev@),
            cv == views(current@),
            views(res@) == pv.take(i as int).filter(|p: ProcessView| !listed(cv, p.pid)),
        decreases prev.len() - i,
    {
        proof {
            assert(pv.take(i + 1).drop_last() =~= pv.take(i as int));
            assert(pv.take(i + 1).last() == pv[i as int]);
            assert(pv[i as int] == prev@[i as int]@);
            reveal(Seq::filter);
        }
        if !is_listed(current, prev[i].pid) {
            let ghost before = res@;
            res.push(prev[i].duplicate());
            assert(views(res@) =~= views(before).push(pv[i as int]));
        }
        i += 1;
    }
    assert(pv.take(prev.len() as int) =~= pv);
    res
}

/// The PIDs of the processes of `current` that `prev` did not list.
pub fn new_pids(prev: &[ProcessInfo], current: &[ProcessInfo]) -> (res: Vec<u32>)
    ensures
        res@ == arrived(views(prev@), views(current@)),
{
    let ghost pv = views(prev@);
    let ghost cv = views(current@);
    let mut res: Vec<u32> = Vec::new();
    let mut i: usize = 0;
    while i < current.len()
        invariant
            i <= current.len(),
            pv == views(prev@),
            cv == views(current@),
            res@ == cv.take(i as int).filter(|p: ProcessView| !listed(pv, p.pid)).map_values(
                |p: ProcessView| p.pid,
            ),
        decreases current.len() - i,
    {
        let ghost kept = cv.take(i as int).filter(|p: ProcessView| !listed(pv, p.pid));
        proof {
            assert(cv.take(i + 1).drop_last() =~= cv.take(i as int));
            assert(cv.take(i + 1).last() == cv[i as int]);
            assert(cv[i as int] == current@[i as int]@);
            reveal(Seq::filter);
        }
        if !is_listed(prev, current[i].pid) {
            res.push(current[i].pid);
            assert(cv.take(i + 1).filter(|p: ProcessView| !listed(pv, p.pid)) == kept.push(cv[i as int]));
            assert(res@ =~= kept.push(cv[i as int]).map_values(|p: ProcessView| p.pid));
        } else {
            assert(cv.take(i + 1).filter(|p: ProcessView| !listed(pv, p.pid)) == kept);
        }
        i += 1;
    }
    assert(cv.take(current.len() as int) =~= cv);
    res
}

// ---------------------------------------------------------------------------
// The log of exited processes
// ---------------------------------------------------------------------------

/// How many exited processes the log keeps.
pub const EXIT_LOG_CAPACITY: usize = 100;

/// An exited process: `exit_time` as the caller wrote it, and how long the
/// process had run.
#[derive(Clone, Debug)]
pub struct ExitEntry {
    pub pid: u32,
    pub name: String,
    pub user: Option<String>,
    pub start_time: String,
    pub exit_time: String,
    pub uptime_secs: u64,
}

/// The last exited processes, oldest first, at most `EXIT_LOG_CAPACITY`.
pub struct ExitLog {
    entries: Vec<ExitEntry>,
}

impl ExitLog {
    #[verifier::type_invariant]
    spec fn fits(self) -> bool {
        self.entries.len() <= EXIT_LOG_CAPACITY
    }

    pub closed spec fn spec_entries(&self) -> Seq<ExitEntry> {
        self.entries@
    }

    pub fn new() -> (log: Self)
        ensures
            log.spec_entries() == Seq::<ExitEntry>::empty(),
    {
        ExitLog { entries: Vec::new() }
    }

    /// Records `entry`; when the log is full, its oldest entry goes.
    pub fn record(&mut self, entry: ExitEntry)
        ensures
            final(self).spec_entries() == (if old(self).spec_entries().len() >= EXIT_LOG_CAPACITY {
                old(self).spec_entries().drop_first().push(entry)
            } else {
                old(self).spec_entries().push(entry)
            }),
            final(self).spec_entries().len() <= EXIT_LOG_CAPACITY,
    {
        proof {
            use_type_invariant(&*self);
        }
        let mut entries: Vec<ExitEntry> = Vec::new();
        std::mem::swap(&mut entries, &mut self.entries);
        if entries.len() >= EXIT_LOG_CAPACITY {
            let ghost before = entries@;
            entries.remove(0);
            assert(entries@ =~= before.drop_first());
        }
        entries.push(entry);
        self.entries = entries;
    }

    pub fn entries(&self) -> (res: &[ExitEntry])
        ensures
            res@ == self.spec_entries(),
    {
        self.entries.as_slice()
    }
}

/// Law: the log never holds more than its capacity, and recording keeps the
/// newest entries: the one recorded last is the last entry.
pub proof fn lemma_exit_log_keeps_newest(old_entries: Seq<ExitEntry>, entry: ExitEntry)
    requires
        old_entries.len() <= EXIT_LOG_CAPACITY,
    ensures
        ({
            let next = if old_entries.len() >= EXIT_LOG_CAPACITY {
                old_entries.drop_first().push(entry)
            } else {
                old_entries.push(entry)
            };
            &&& next.len() <= EXIT_LOG_CAPACITY
            &&& next.last() == entry
            &&& next.drop_last() == old_entries.skip(old_entries.len() + 1 - next.len())
        }),
{
    if old_entries.len() >= EXIT_LOG_CAPACITY {
        assert(old_entries.drop_first().push(entry).drop_last() =~= old_entries.skip(1));
    } else {
        assert(old_entries.push(entry).drop_last() =~= old_entries.skip(0));
    }
}

/// An entry matches the search `query` (already lower-cased) when its
/// lower-cased name or user contains it, or its PID in decimal does.
pub open spec fn entry_matches(e: ExitEntry, query: Seq<char>) -> bool {
    ||| contains(lowercase(e.name@), query)
    ||| (match e.user {
        Some(u) => contains(lowercase(u@), query),
        None => false,
    })
    ||| contains(decimal(e.pid as nat), query)
}

fn entry_matches_exec(e: &ExitEntry, query: &str) -> (res: bool)
    ensures
        res == entry_matches(*e, query@),
{
    let name = to_lowercase(e.name.as_str());
    if contains_exec(name.as_str(), query) {
        return true;
    }
    let by_user = match &e.user {
        Some(u) => {
            let lu = to_lowercase(u.as_str());
            contains_exec(lu.as_str(), query)
        },
        None => false,
    };
    if by_user {
        return true;
    }
    let d = decimal_string(e.pid as u64);
    contains_exec(d.as_str(), query)
}

/// The positions of the entries that the search `filter` finds (ignoring
/// case in names and users), in order; an empty search finds every entry.
pub fn search_exit_log(entries: &[ExitEntry], filter: &str) -> (res: Vec<usize>)
    ensures
        forall|k: int| 0 <= k < res.len() ==> (#[trigger] res[k]) < entries.len(),
        forall|k: int| 0 <= k < res.len() ==> entry_matches(entries@[res[k] as int], lowercase(filter@))
            || filter@.len() == 0,
        forall|i: int|
            0 <= i < entries.len() && (filter@.len() == 0 || entry_matches(entries@[i], lowercase(filter@)))
                ==> res@.contains(i as usize),
        forall|a: int, b: int| 0 <= a < b < res.len() ==> res[a] < res[b],
{
    let everything = crate::text::chars_of(filter).len() == 0;
    let query = to_lowercase(filter);
    let mut res: Vec<usize> = Vec::new();
    let mut i: usize = 0;
    while i < entries.len()
        invariant
            i <= entries.len(),
            everything == (filter@.len() == 0),
            query@ == lowercase(filter@),
            forall|k: int| 0 <= k < res.len() ==> (#[trigger] res[k]) < i,
            forall|k: int| 0 <= k < res.len() ==> entry_matches(entries@[res[k] as int], lowercase(filter@))
                || filter@.len() == 0,
            forall|j: int|
                0 <= j < i && (filter@.len() == 0 || entry_matches(entries@[j], lowercase(filter@)))
                    ==> res@.contains(j as usize),
            forall|a: int, b: int| 0 <= a < b < res.len() ==> res[a] < res[b],
        decreases entries.len() - i,
    {
        if everything || entry_matches_exec(&entries[i], query.as_str()) {
            let ghost before = res@;
            res.push(i);
            proof {
                assert forall|j: int|
                    0 <= j < i + 1 && (filter@.len() == 0 || entry_matches(entries@[j], lowercase(filter@)))
                        implies res@.contains(j as usize) by {
                    if j < i {
                        assert(before.contains(j as usize));
                        let k = choose|k: int| 0 <= k < before.len() && before[k] == j as usize;
                        assert(res@[k] == j as usize);
                    } else {
                        assert(res@[before.len() as int] == i);
                    }
                }
            }
        }
        i += 1;
    }
    res
}

// ---------------------------------------------------------------------------
// Log lines of scheduled tasks
// ---------------------------------------------------------------------------

/// The log line of a scheduled task that ran `action`. `outcome` is what
/// performing it gave: for a restart or a cleanup the number of processes
/// acted on, for a start the new PID, otherwise nothing of use; or the text
/// of the failure.
pub open spec fn task_report_text(action: ScheduleAction, outcome: Result<u64, Seq<char>>) -> Seq<char> {
    match action {
        ScheduleAction::RestartProcess { pattern } => match outcome {
            Ok(n) => if n == 0 {
                "No processes found matching '"@ + pattern@ + "' to restart"@
            } else {
                "Restarted "@ + decimal(n as nat) + " process(es) matching '"@ + pattern@ + "'"@
            },
            Err(e) => "Error restarting processes matching '"@ + pattern@ + "': "@ + e,
        },
        ScheduleAction::StartProcess { program, .. } => match outcome {
            Ok(pid) => "Started process '"@ + program@ + "' (PID: "@ + decimal(pid as nat) + ")"@,
            Err(e) => "Error starting '"@ + program@ + "': "@ + e,
        },
        ScheduleAction::CleanupIdle { .. } => match outcome {
            Ok(n) => "Cleaned up "@ + decimal(n as nat) + " idle processes"@,
            Err(e) => "Error: "@ + e,
        },
        ScheduleAction::ApplyRule { .. } => "Rule applied"@,
        ScheduleAction::KillProcess { pid } => match outcome {
            Ok(_) => "Killed process PID "@ + decimal(pid as nat),
            Err(e) => "Error killing PID "@ + decimal(pid as nat) + ": "@ + e,
        },
        ScheduleAction::StopProcess { pid } => match outcome {
            Ok(_) => "Stopped process PID "@ + decimal(pid as nat),
            Err(e) => "Error stopping PID "@ + decimal(pid as nat) + ": "@ + e,
        },
        ScheduleAction::ContinueProcess { pid } => match outcome {
            Ok(_) => "Continued process PID "@ + decimal(pid as nat),
            Err(e) => "Error continuing PID "@ + decimal(pid as nat) + ": "@ + e,
        },
        ScheduleAction::ReniceProcess { pid, nice } => match outcome {
            Ok(_) => "Reniced PID "@ + decimal(pid as nat) + " to "@ + signed_decimal(nice as int),
            Err(e) => "Error renicing PID "@ + decimal(pid as nat) + ": "@ + e,
        },
    }
}

/// The log line of a scheduled task that ran `action` (see `task_report_text`).
pub fn task_report(action: &ScheduleAction, outcome: Result<u64, &str>) -> (res: String)
    ensures
        res@ == task_report_text(
            *action,
            match outcome {
                Ok(n) => Ok(n),
                Err(e) => Err(e@),
            },
        ),
{
    match action {
        ScheduleAction::RestartProcess { pattern } => match outcome {
            Ok(n) => if n == 0 {
                let mut m = owned("No processes found matching '");
                push_str(&mut m, pattern.as_str());
                push_str(&mut m, "' to restart");
                m
            } else {
                let mut m = owned("Restarted ");
                let d = decimal_string(n);
                push_str(&mut m, d.as_str());
                push_str(&mut m, " process(es) matching '");
                push_str(&mut m, pattern.as_str());
                push_str(&mut m, "'");
                m
            },
            Err(e) => {
                let mut m = owned("Error restarting processes matching '");
                push_str(&mut m, pattern.as_str());
                push_str(&mut m, "': ");
                push_str(&mut m, e);
                m
            },
        },
        ScheduleAction::StartProcess { program, .. } => match outcome {
            Ok(pid) => {
                let mut m = owned("Started process '");
                push_str(&mut m, program.as_str());
                push_str(&mut m, "' (PID: ");
                let d = decimal_string(pid);
                push_str(&mut m, d.as_str());
                push_str(&mut m, ")");
                m
            },
            Err(e) => {
                let mut m = owned("Error starting '");
                push_str(&mut m, program.as_str());
                push_str(&mut m, "': ");
                push_str(&mut m, e);
                m
            },
        },
        ScheduleAction::CleanupIdle { .. } => match outcome {
            Ok(n) => {
                let mut m = owned("Cleaned up ");
                let d = decimal_string(n);
                push_str(&mut m, d.as_str());
                push_str(&mut m, " idle processes");
                m
            },
            Err(e) => {
                let mut m = owned("Error: ");
                push_str(&mut m, e);
                m
            },
        },
        ScheduleAction::ApplyRule { .. } => owned("Rule applied"),
        ScheduleAction::KillProcess { pid } => pid_report("Killed process PID ", "Error killing PID ", *pid, outcome),
        ScheduleAction::StopProcess { pid } => pid_report("Stopped process PID ", "Error stopping PID ", *pid, outcome),
        ScheduleAction::ContinueProcess { pid } => pid_report(
            "Continued process PID ",
            "Error continuing PID ",
            *pid,
            outcome,
        ),
        ScheduleAction::ReniceProcess { pid, nice } => match outcome {
            Ok(_) => {
                let mut m = owned("Reniced PID ");
                let d = decimal_string(*pid as u64);
                push_str(&mut m, d.as_str());
                push_str(&mut m, " to ");
                let n = i32_string(*nice);
                push_str(&mut m, n.as_str());
                m
            },
            Err(e) => pid_report("", "Error renicing PID ", *pid, Err(e)),
        },
    }
}

fn pid_report(done: &str, failed: &str, pid: u32, outcome: Result<u64, &str>) -> (res: String)
    ensures
        res@ == match outcome {
            Ok(_) => done@ + decimal(pid as nat),
            Err(e) => failed@ + decimal(pid as nat) + ": "@ + e@,
        },
{
    let d = decimal_string(pid as u64);
    match outcome {
        Ok(_) => {
            let mut m = owned(done);
            push_str(&mut m, d.as_str());
            m
        },
        Err(e) => {
            let mut m = owned(failed);
            push_str(&mut m, d.as_str());
            push_str(&mut m, ": ");
            push_str(&mut m, e);
            m
        },
    }
}

// ---------------------------------------------------------------------------
// The exit log, grouped
// ---------------------------------------------------------------------------

/// The key an exit-log entry is grouped under: its name; its PID in decimal
/// under the PPID grouping (the log keeps no parent PID); its user, or
/// `Unknown`; nothing when the log is not grouped.
pub open spec fn log_key(e: ExitEntry, g: LogGroup) -> Seq<char> {
    match g {
        LogGroup::Name => e.name@,
        LogGroup::Ppid => decimal(e.pid as nat),
        LogGroup::User => match e.user {
            Some(u) => u@,
            None => "Unknown"@,
        },
        LogGroup::Flat => seq![],
    }
}

/// How many entries have key `k`.
pub open spec fn key_count(es: Seq<ExitEntry>, g: LogGroup, k: Seq<char>) -> nat
    decreases es.len(),
{
    if es.len() == 0 {
        0
    } else {
        key_count(es.drop_last(), g, k) + if log_key(es.last(), g) == k {
            1nat
        } else {
            0nat
        }
    }
}

/// The uptimes of the entries with key `k`, added up.
pub open spec fn key_sum(es: Seq<ExitEntry>, g: LogGroup, k: Seq<char>) -> nat
    decreases es.len(),
{
    if es.len() == 0 {
        0
    } else {
        key_sum(es.drop_last(), g, k) + if log_key(es.last(), g) == k {
            es.last().uptime_secs as nat
        } else {
            0nat
        }
    }
}

/// The shortest uptime among the entries with key `k`, if there is one.
pub open spec fn key_min(es: Seq<ExitEntry>, g: LogGroup, k: Seq<char>) -> Option<nat>
    decreases es.len(),
{
    if es.len() == 0 {
        None
    } else {
        let r = key_min(es.drop_last(), g, k);
        let u = es.last().uptime_secs as nat;
        if log_key(es.last(), g) != k {
            r
        } else {
            match r {
                Some(m) => Some(if u < m { u } else { m }),
                None => Some(u),
            }
        }
    }
}

/// The longest uptime among the entries with key `k` (0 when there is
/// none).
pub open spec fn key_max(es: Seq<ExitEntry>, g: LogGroup, k: Seq<char>) -> nat
    decreases es.len(),
{
    if es.len() == 0 {
        0
    } else {
        let r = key_max(es.drop_last(), g, k);
        let u = es.last().uptime_secs as nat;
        if log_key(es.last(), g) == k && u > r {
            u
        } else {
            r
        }
    }
}

/// The latest exit time among the entries with key `k`, empty when there
/// is none. Exit times are written `%Y-%m-%d %H:%M:%S`, whose text order is
/// time order.
pub open spec fn key_latest(es: Seq<ExitEntry>, g: LogGroup, k: Seq<char>) -> Seq<char>
    decreases es.len(),
{
    if es.len() == 0 {
        seq![]
    } else {
        let r = key_latest(es.drop_last(), g, k);
        let t = es.last().exit_time@;
        if log_key(es.last(), g) == k && !lex_lt(t, r) {
            t
        } else {
            r
        }
    }
}

/// A row of the grouped exit log.
#[derive(Debug)]
pub struct LogRow {
    pub key: String,
    pub count: usize,
    pub min_uptime: u64,
    pub max_uptime: u64,
    pub avg_uptime: u64,
    pub most_recent: String,
}

/// The model of a `LogRow`.
pub struct LogRowView {
    pub key: Seq<char>,
    pub count: nat,
    pub min_uptime: nat,
    pub max_uptime: nat,
    pub avg_uptime: nat,
    pub most_recent: Seq<char>,
}

pub open spec fn log_row_views(v: Seq<LogRow>) -> Seq<LogRowView> {
    v.map_values(
        |r: LogRow|
            LogRowView {
                key: r.key@,
                count: r.count as nat,
                min_uptime: r.min_uptime as nat,
                max_uptime: r.max_uptime as nat,
                avg_uptime: r.avg_uptime as nat,
                most_recent: r.most_recent@,
            },
    )
}

/// The row of key `k`: how many entries have it, their shortest, longest
/// and average uptime (rounded down), and their latest exit time.
pub open spec fn row_for(es: Seq<ExitEntry>, g: LogGroup, k: Seq<char>) -> LogRowView {
    let n = key_count(es, g, k);
    LogRowView {
        key: k,
        count: n,
        min_uptime: match key_min(es, g, k) {
            Some(m) => m,
            None => 0,
        },
        max_uptime: key_max(es, g, k),
        avg_uptime: if n > 0 {
            key_sum(es, g, k) / n
        } else {
            0
        },
        most_recent: key_latest(es, g, k),
    }
}

/// Row `a` goes before row `b`: it counts more entries.
pub open spec fn more_entries() -> spec_fn(LogRowView, LogRowView) -> bool {
    |a: LogRowView, b: LogRowView| a.count > b.count
}

/// The uptimes of every group add up within a `u64`.
pub open spec fn sums_fit(es: Seq<ExitEntry>, g: LogGroup) -> bool {
    forall|i: int| 0 <= i < es.len() ==> key_sum(es, g, #[trigger] log_key(es[i], g)) <= u64::MAX
}

/// The keys of the entries, each once, in `String` order.
pub open spec fn key_list(es: Seq<ExitEntry>, g: LogGroup, ks: Seq<Seq<char>>) -> bool {
    &&& sorted_strictly(ks)
    &&& forall|x: Seq<char>|
        ks.contains(x) <==> exists|i: int| 0 <= i < es.len() && #[trigger] log_key(es[i], g) == x
}

fn log_key_of(e: &ExitEntry, g: LogGroup) -> (res: String)
    ensures
        res@ == log_key(*e, g),
{
    match g {
        LogGroup::Name => owned(e.name.as_str()),
        LogGroup::Ppid => decimal_string(e.pid as u64),
        LogGroup::User => match &e.user {
            Some(u) => owned(u.as_str()),
            None => owned("Unknown"),
        },
        LogGroup::Flat => String::new(),
    }
}

/// The row of key `k`, or `None` when its uptimes do not add up within a
/// `u64`.
fn row_of(es: &[ExitEntry], g: LogGroup, k: &str) -> (res: Option<LogRow>)
    ensures
        match res {
            Some(r) => key_sum(es@, g, k@) <= u64::MAX && log_row_views(seq![r])[0] == row_for(es@, g, k@),
            None => key_sum(es@, g, k@) > u64::MAX,
        },
{
    let ghost all = es@;
    let mut count: usize = 0;
    let mut sum: u64 = 0;
    let mut min: Option<u64> = None;
    let mut max: u64 = 0;
    let mut latest = String::new();
    let mut i: usize = 0;
    assert(all.take(0) =~= Seq::<ExitEntry>::empty());
    while i < es.len()
        invariant
            i <= es.len(),
            all == es@,
            count == key_count(all.take(i as int), g, k@),
            count <= i,
            sum == key_sum(all.take(i as int), g, k@),
            (match min {
                Some(m) => Some(m as nat),
                None => None,
            }) == key_min(all.take(i as int), g, k@),
            max == key_max(all.take(i as int), g, k@),
            latest@ == key_latest(all.take(i as int), g, k@),
        decreases es.len() - i,
    {
        let ghost t = all.take(i + 1);
        assert(t.drop_last() =~= all.take(i as int));
        assert(t.last() == es@[i as int]);
        let key = log_key_of(&es[i], g);
        if str_eq(key.as_str(), k) {
            let u = es[i].uptime_secs;
            if sum > u64::MAX - u {
                proof {
                    lemma_key_sum_prefix(all, g, k@, i + 1);
                }
                return None;
            }
            sum = sum + u;
            count = count + 1;
            min = match min {
                Some(m) => Some(if u < m { u } else { m }),
                None => Some(u),
            };
            if u > max {
                max = u;
            }
            if !crate::groups::lex_less(es[i].exit_time.as_str(), latest.as_str()) {
                latest = owned(es[i].exit_time.as_str());
            }
        }
        i += 1;
    }
    assert(all.take(es.len() as int) =~= all);
    let avg = if count > 0 {
        sum / (count as u64)
    } else {
        0
    };
    let row = LogRow {
        key: owned(k),
        count,
        min_uptime: match min {
            Some(m) => m,
            None => 0,
        },
        max_uptime: max,
        avg_uptime: avg,
        most_recent: latest,
    };
    Some(row)
}

/// A longer log adds up to no less.
proof fn lemma_key_sum_prefix(es: Seq<ExitEntry>, g: LogGroup, k: Seq<char>, n: int)
    requires
        0 <= n <= es.len(),
    ensures
        key_sum(es.take(n), g, k) <= key_sum(es, g, k),
    decreases es.len(),
{
    if n < es.len() {
        assert(es.drop_last().take(n) =~= es.take(n));
        lemma_key_sum_prefix(es.drop_last(), g, k, n);
    } else {
        assert(es.take(n) =~= es);
    }
}

/// The grouped exit log of `entries`: a row per key (`log_key`), the keys in
/// `String` order, then the rows stably ordered by how many entries they
/// count, most first. `None` when the uptimes of a group do not add up
/// within a `u64`.
pub fn log_summary(entries: &[ExitEntry], g: LogGroup) -> (res: Option<Vec<LogRow>>)
    ensures
        res is None <==> !sums_fit(entries@, g),
        res matches Some(rows) ==> exists|ks: Seq<Seq<char>>|
            #![trigger key_list(entries@, g, ks)]
            key_list(entries@, g, ks) && log_row_views(rows@) == stable_sorted(
                ks.map_values(|k: Seq<char>| row_for(entries@, g, k)),
                more_entries(),
            ),
{
    let ghost es = entries@;
    // The keys, each once, in order.
    let mut keys: Vec<String> = Vec::new();
    let mut i: usize = 0;
    while i < entries.len()
        invariant
            i <= entries.len(),
            es == entries@,
            sorted_strictly(str_views(keys@)),
            forall|x: Seq<char>|
                str_views(keys@).contains(x) <==> exists|m: int| 0 <= m < i && #[trigger] log_key(es[m], g) == x,
        decreases entries.len() - i,
    {
        let k = log_key_of(&entries[i], g);
        let ghost before = str_views(keys@);
        insert_sorted(&mut keys, k.as_str());
        assert forall|x: Seq<char>|
            str_views(keys@).contains(x) <==> exists|m: int| 0 <= m < i + 1 && #[trigger] log_key(es[m], g) == x by {
            if str_views(keys@).contains(x) && x != k@ {
                assert(before.contains(x));
            }
            if x == k@ {
                assert(log_key(es[i as int], g) == x);
            }
            if exists|m: int| 0 <= m < i + 1 && #[trigger] log_key(es[m], g) == x {
                let m = choose|m: int| 0 <= m < i + 1 && #[trigger] log_key(es[m], g) == x;
                if m < i {
                    assert(before.contains(x));
                }
            }
        }
        i += 1;
    }
    let ghost ks = str_views(keys@);
    // A row per key.
    let mut rows: Vec<LogRow> = Vec::new();
    let mut j: usize = 0;
    assert(ks.take(0).map_values(|k: Seq<char>| row_for(es, g, k)) =~= Seq::<LogRowView>::empty());
    assert(log_row_views(rows@) =~= Seq::<LogRowView>::empty());
    while j < keys.len()
        invariant
            j <= keys.len(),
            es == entries@,
            ks == str_views(keys@),
            sorted_strictly(ks),
            forall|x: Seq<char>|
                ks.contains(x) <==> exists|m: int| 0 <= m < es.len() && #[trigger] log_key(es[m], g) == x,
            log_row_views(rows@) == ks.take(j as int).map_values(|k: Seq<char>| row_for(es, g, k)),
            forall|m: int| 0 <= m < j ==> key_sum(es, g, #[trigger] ks[m]) <= u64::MAX,
        decreases keys.len() - j,
    {
        assert(ks[j as int] == keys@[j as int]@);
        match row_of(entries, g, keys[j].as_str()) {
            Some(r) => {
                let ghost before = rows@;
                rows.push(r);
                assert(log_row_views(rows@) =~= log_row_views(before).push(row_for(es, g, ks[j as int])));
                assert(ks.take(j + 1).map_values(|k: Seq<char>| row_for(es, g, k)) =~= ks.take(
                    j as int,
                ).map_values(|k: Seq<char>| row_for(es, g, k)).push(row_for(es, g, ks[j as int])));
            },
            None => {
                proof {
                    assert(ks[j as int] == ks[j as int]);
                    assert(ks.contains(ks[j as int]));
                    let m = choose|m: int| 0 <= m < es.len() && #[trigger] log_key(es[m], g) == ks[j as int];
                    assert(key_sum(es, g, log_key(es[m], g)) > u64::MAX);
                }
                return None;
            },
        }
        j += 1;
    }
    assert(ks.take(keys.len() as int) =~= ks);
    assert(sums_fit(es, g)) by {
        assert forall|i: int| 0 <= i < es.len() implies key_sum(es, g, #[trigger] log_key(es[i], g)) <= u64::MAX by {
            assert(ks.contains(log_key(es[i], g)));
            let m = choose|m: int| 0 <= m < ks.len() && ks[m] == log_key(es[i], g);
            assert(key_sum(es, g, ks[m]) <= u64::MAX);
        }
    }
    // Most entries first, keeping the key order among equals.
    let ghost unsorted = ks.map_values(|k: Seq<char>| row_for(es, g, k));
    let ghost lt = more_entries();
    let mut rest = rows;
    let mut out: Vec<LogRow> = Vec::new();
    let n = rest.len();
    let mut i: usize = 0;
    assert(unsorted.take(0) =~= Seq::<LogRowView>::empty());
    assert(log_row_views(out@) =~= Seq::<LogRowView>::empty());
    while i < n
        invariant
            n == unsorted.len(),
            i <= n,
            lt == more_entries(),
            log_row_views(rest@) == unsorted.skip(i as int),
            rest.len() == n - i,
            log_row_views(out@) == stable_sorted(unsorted.take(i as int), lt),
        decreases n - i,
    {
        let ghost before = rest@;
        let x = rest.remove(0);
        let ghost xv = log_row_views(seq![x])[0];
        proof {
            assert(rest@ =~= before.drop_first());
            assert(log_row_views(rest@) =~= log_row_views(before).drop_first());
            assert(log_row_views(rest@) =~= unsorted.skip(i + 1));
            assert(log_row_views(before)[0] == xv);
            assert(xv == unsorted[i as int]);
            assert(unsorted.take(i + 1).drop_last() =~= unsorted.take(i as int));
            assert(unsorted.take(i + 1).last() == unsorted[i as int]);
        }
        let ghost ov = log_row_views(out@);
        let mut j = out.len();
        assert(ov.take(j as int) =~= ov);
        while j > 0 && out[j - 1].count < x.count
            invariant
                j <= out.len(),
                ov == log_row_views(out@),
                lt == more_entries(),
                xv == log_row_views(seq![x])[0],
                slot(ov, xv, lt) == slot(ov.take(j as int), xv, lt),
            decreases j,
        {
            assert(ov.take(j as int).drop_last() =~= ov.take(j - 1));
            assert(ov.take(j as int).last() == ov[j - 1]);
            assert(ov[j - 1].count == out@[j - 1].count);
            j -= 1;
        }
        proof {
            if j > 0 {
                assert(ov.take(j as int).last() == ov[j - 1]);
                assert(ov[j - 1].count == out@[j - 1].count);
            }
            assert(ov.take(ov.len() as int) =~= ov);
        }
        out.insert(j, x);
        assert(log_row_views(out@) =~= ov.insert(j as int, xv));
        i += 1;
    }
    assert(unsorted.take(n as int) =~= unsorted);
    assert(key_list(es, g, ks));
    Some(out)
}

} // verus!
